pub mod virtual_hscroll;
