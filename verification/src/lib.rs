pub mod model;
pub mod view;
pub mod widgets;
