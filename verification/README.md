# scrolled_quran

The logic of a Quran reader that scrolls the text horizontally, each
function with a proved contract.

- `src/model.rs`: the tables of the mushaf (surahs, ayah texts, first ayahs
  of the pages), the page of an ayah, the numbering of the ayahs a reader
  shows, the reading progress and the navigation state of the application.
- `src/view.rs`: the grids of the index screen and the order of the
  "Recently read" cards.
- `src/widgets/virtual_hscroll.rs`: the id-level state of the horizontal
  virtual scroller (valid, active and visible ranges, the anchor, the
  loaded children by id, the requests to the driver).
- `app/`: the user data on disk, the floating-point geometry of the scroller
  and a text view of the index.
