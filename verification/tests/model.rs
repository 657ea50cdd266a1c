use scrolled_quran::model::{
    ReaderStep, page_of, surah_needs_basmalah, AppState, Page, PlaceOfRevelation, Progress, QuranData,
    SurahInfo, TIMESTAMP_MAX_NANOS, TIMESTAMP_MIN_NANOS,
};

fn info(name: &'static str, ayahs: u16, cumulative_ayahs: u16) -> SurahInfo {
    SurahInfo {
        name_ar: name,
        name_en: name,
        name_en_simple: name,
        ayahs,
        cumulative_ayahs,
        revealed_in: PlaceOfRevelation::Makkah,
    }
}

const TEXTS: [&str; 13] = [
    "basmalah", "1:1", "1:2", "1:3", "1:4", "1:5", "1:6", "1:7", "2:1", "2:2", "2:3", "2:4",
    "2:5",
];

/// A small mushaf: surah 1 of 7 ayahs, surah 2 of 5 ayahs, three pages
/// starting at 1:1, 2:1 and 2:4.
fn small() -> QuranData {
    QuranData::new(
        vec![info("", 0, 0), info("one", 7, 0), info("two", 5, 7)],
        TEXTS.to_vec(),
        vec![(1, 1), (2, 1), (2, 4)],
    )
    .expect("valid tables")
}

#[test]
fn basmalah_is_needed_by_all_surahs_but_two() {
    assert!(!surah_needs_basmalah(1));
    assert!(!surah_needs_basmalah(9));
    assert!(surah_needs_basmalah(2));
    assert!(surah_needs_basmalah(8));
    assert!(surah_needs_basmalah(10));
    assert!(surah_needs_basmalah(114));
}

#[test]
fn tables_are_checked() {
    let surahs = vec![info("", 0, 0), info("one", 7, 0), info("two", 5, 7)];
    assert!(QuranData::new(surahs.clone(), TEXTS.to_vec(), vec![(1, 1), (2, 1)]).is_some());
    // Pages out of order.
    assert!(QuranData::new(surahs.clone(), TEXTS.to_vec(), vec![(2, 1), (1, 1)]).is_none());
    // The same ayah starting two pages.
    assert!(QuranData::new(surahs.clone(), TEXTS.to_vec(), vec![(1, 1), (1, 1)]).is_none());
    // Too few texts for the last ayah of surah 2.
    assert!(QuranData::new(surahs.clone(), TEXTS[..12].to_vec(), vec![]).is_none());
    // No basmalah text at all.
    assert!(QuranData::new(vec![], vec![], vec![]).is_none());
    // Surah 2 does not start after surah 1.
    let gap = vec![info("", 0, 0), info("one", 7, 0), info("two", 4, 8)];
    assert!(QuranData::new(gap, TEXTS.to_vec(), vec![]).is_none());
    // Surah 1 does not start at the first text.
    let late = vec![info("", 0, 0), info("one", 7, 1)];
    assert!(QuranData::new(late, TEXTS.to_vec(), vec![]).is_none());
    let data = small();
    assert_eq!(data.surah_count(), 3);
    assert_eq!(data.page_count(), 3);
    assert_eq!(data.surah_info(2).ayahs, 5);
    assert_eq!(data.surah_info(2).name_en, "two");
}

#[test]
fn page_of_counts_the_pages_started_so_far() {
    let data = small();
    assert_eq!(page_of(&data, 1, 1), 1);
    assert_eq!(page_of(&data, 1, 7), 1);
    assert_eq!(page_of(&data, 2, 0), 2);
    assert_eq!(page_of(&data, 2, 1), 2);
    assert_eq!(page_of(&data, 2, 3), 2);
    assert_eq!(page_of(&data, 2, 4), 3);
    assert_eq!(page_of(&data, 2, 5), 3);
    assert_eq!(page_of(&data, 3, 1), 3);
    // The basmalah of surah 1 stands where its first ayah does.
    assert_eq!(page_of(&data, 1, 0), 1);
    // Nothing starts before 1:1.
    assert_eq!(page_of(&data, 0, 9), 0);
}

#[test]
fn page_boundaries_agree_with_page_of() {
    let data = small();
    let reader = Progress::from_parts(0, 2, 1).reader();
    assert_eq!(reader.is_ayah_on_page_boundary(&data, 1), Some(2));
    assert_eq!(reader.is_ayah_on_page_boundary(&data, 0), Some(2));
    assert_eq!(reader.is_ayah_on_page_boundary(&data, 2), None);
    assert_eq!(reader.is_ayah_on_page_boundary(&data, 4), Some(3));
    for ayah in 0..=5 {
        if let Some(p) = reader.is_ayah_on_page_boundary(&data, ayah) {
            assert_eq!(page_of(&data, 2, ayah), p);
        }
    }
    let first = Progress::from_parts(0, 1, 1).reader();
    assert_eq!(first.is_ayah_on_page_boundary(&data, 1), Some(1));
    assert_eq!(first.is_ayah_on_page_boundary(&data, 7), None);
}

#[test]
fn ayah_texts_follow_the_surah_table() {
    let data = small();
    let one = Progress::from_parts(0, 1, 1).reader();
    let two = Progress::from_parts(0, 2, 0).reader();
    assert_eq!(one.ayah_text(&data, 1), "1:1");
    assert_eq!(one.ayah_text(&data, 7), "1:7");
    assert_eq!(two.ayah_text(&data, 0), "basmalah");
    assert_eq!(two.ayah_text(&data, 1), "2:1");
    assert_eq!(two.ayah_text(&data, 5), "2:5");
}

#[test]
fn ayah_ranges_and_counts() {
    let data = small();
    let one = Progress::from_parts(0, 1, 1).reader();
    let two = Progress::from_parts(0, 2, 0).reader();
    assert_eq!(one.ayah_range(&data), 1..=7);
    assert_eq!(one.ayahs_count(&data), 7);
    assert_eq!(two.ayah_range(&data), 0..=5);
    assert_eq!(two.ayahs_count(&data), 6);
    assert_eq!(two.ayah_range(&data).count(), two.ayahs_count(&data));
    assert_eq!(one.ayah_range(&data).count(), one.ayahs_count(&data));
}

#[test]
fn positions_and_ayahs_correspond() {
    let data = small();
    for (surah, ayahs) in [(1u8, 7u16), (2, 5)] {
        let reader = Progress::from_parts(0, surah, 1).reader();
        for ayah in reader.ayah_range(&data) {
            let index = reader.ayah_to_index(ayah);
            assert!(index < reader.ayahs_count(&data));
            assert_eq!(reader.index_to_ayah(index), ayah);
        }
        for index in 0..reader.ayahs_count(&data) {
            let ayah = reader.index_to_ayah(index);
            assert!(ayah <= ayahs);
            assert_eq!(reader.ayah_to_index(ayah), index);
        }
    }
    let one = Progress::from_parts(0, 1, 1).reader();
    assert_eq!(one.ayah_to_index(1), 0);
    assert_eq!(one.index_to_ayah(0), 1);
    let nine = Progress::from_parts(0, 9, 1).reader();
    assert_eq!(nine.ayah_to_index(3), 2);
    let two = Progress::from_parts(0, 2, 0).reader();
    assert_eq!(two.ayah_to_index(3), 3);
    assert_eq!(two.index_to_ayah(3), 3);
    // The position is cast to 16 bits.
    assert_eq!(two.index_to_ayah(65536), 0);
    assert_eq!(one.index_to_ayah(65535), 0);
    assert_eq!(one.index_to_ayah(70000), 4465);
}

#[test]
fn new_progress_starts_at_the_first_shown_ayah_now() {
    let before = jiff::Timestamp::now().as_nanosecond();
    let p = Progress::new(2).expect("the clock reads as a timestamp");
    let after = jiff::Timestamp::now().as_nanosecond();
    assert!(before <= p.last_on() && p.last_on() <= after);
    assert!(TIMESTAMP_MIN_NANOS <= p.last_on() && p.last_on() <= TIMESTAMP_MAX_NANOS);
    assert_eq!(p.surah(), 2);
    assert_eq!(p.ayah(), 0);
    let q = Progress::new(1).expect("the clock reads as a timestamp");
    assert_eq!(q.surah(), 1);
    assert_eq!(q.ayah(), 1);
    assert_eq!(Progress::new(9).unwrap().ayah(), 1);
}

#[test]
fn jiff_limits_match_the_constants() {
    assert_eq!(jiff::Timestamp::MIN.as_nanosecond(), TIMESTAMP_MIN_NANOS);
    assert_eq!(jiff::Timestamp::MAX.as_nanosecond(), TIMESTAMP_MAX_NANOS);
}

#[test]
fn set_ayah_is_read_back() {
    let mut p = Progress::from_parts(42, 3, 7);
    p.set_ayah(100);
    assert_eq!(p.ayah(), 100);
    assert_eq!(p.surah(), 3);
    assert_eq!(p.last_on(), 42);
}

#[test]
fn reader_jumps_to_the_ayah_read_last() {
    let r = Progress::from_parts(0, 2, 10).reader();
    assert_eq!(r.surah, 2);
    assert_eq!(r.jump_to_ayah_index, Some(10));
    assert!(!r.is_scrolling);
    let r = Progress::from_parts(0, 1, 3).reader();
    assert_eq!(r.jump_to_ayah_index, Some(2));
    let r = Progress::from_parts(0, 9, 1).reader();
    assert_eq!(r.jump_to_ayah_index, Some(0));
}

#[test]
fn app_state_navigation() {
    let saved = vec![Progress::from_parts(5, 3, 4), Progress::from_parts(6, 1, 2)];
    let mut state = AppState::load(saved);
    assert!(state.page == Page::Index);
    assert!(state.reader.is_none());
    assert_eq!(state.active_screen(), 0);
    assert!(state.selected_progress_mut().is_none());

    state.page = Page::About;
    assert_eq!(state.active_screen(), 1);
    state.page = Page::Reader;
    assert_eq!(state.active_screen(), 0);

    let p = state.progress[1];
    state.set_reader(1, p);
    assert!(state.page == Page::Reader);
    assert_eq!(state.active_screen(), 2);
    let (idx, reader) = state.reader.as_ref().unwrap();
    assert_eq!(*idx, 1);
    assert_eq!(reader.surah, 1);
    assert_eq!(reader.jump_to_ayah_index, Some(1));

    state.selected_progress_mut().unwrap().set_ayah(6);
    assert_eq!(state.progress[1].ayah(), 6);
    assert_eq!(state.progress[0].ayah(), 4);

    state.page = Page::Index;
    assert_eq!(state.active_screen(), 0);

    assert!(state.open_new_surah(18));
    assert_eq!(state.progress.len(), 3);
    assert_eq!(state.progress[2].surah(), 18);
    assert_eq!(state.progress[2].ayah(), 0);
    assert!(state.page == Page::Reader);
    let (idx, reader) = state.reader.as_ref().unwrap();
    assert_eq!(*idx, 2);
    assert_eq!(reader.surah, 18);
    assert_eq!(reader.jump_to_ayah_index, Some(0));
    state.selected_progress_mut().unwrap().set_ayah(3);
    assert_eq!(state.progress[2].ayah(), 3);
}

#[test]
fn scrolling_records_the_first_visible_ayah() {
    let mut r = Progress::from_parts(0, 2, 10).reader();
    assert_eq!(r.jump_to_ayah_index, Some(10));
    assert_eq!(r.scrolled_to(12), 12);
    assert_eq!(r.jump_to_ayah_index, None);
    assert_eq!(r.surah, 2);
    assert_eq!(r.scrolled_to(65537), 1);
}

#[test]
fn the_slider_jumps_and_play_toggles() {
    let mut r = Progress::from_parts(0, 1, 3).reader();
    assert_eq!(r.jump_to_ayah(5), 5);
    assert_eq!(r.jump_to_ayah_index, Some(4));
    let mut r2 = Progress::from_parts(0, 2, 0).reader();
    assert_eq!(r2.jump_to_ayah(5), 5);
    assert_eq!(r2.jump_to_ayah_index, Some(5));
    assert!(!r2.is_scrolling);
    r2.toggle_scrolling();
    assert!(r2.is_scrolling);
    r2.toggle_scrolling();
    assert!(!r2.is_scrolling);
    assert_eq!(r2.surah, 2);
}

#[test]
fn reader_steps() {
    let saved = vec![Progress::from_parts(5, 3, 4), Progress::from_parts(6, 1, 2)];
    let mut state = AppState::load(saved);
    assert!(!state.apply_reader_step(ReaderStep::Nothing));
    assert!(state.page == Page::Index);
    let p = state.progress[0];
    state.set_reader(0, p);
    assert!(state.apply_reader_step(ReaderStep::SetAyah(9)));
    assert_eq!(state.progress[0].ayah(), 9);
    assert_eq!(state.progress[0].last_on(), 5);
    assert_eq!(state.progress[1].ayah(), 2);
    assert!(state.page == Page::Reader);
    assert!(!state.apply_reader_step(ReaderStep::Nothing));
    assert!(state.page == Page::Reader);
    assert!(!state.apply_reader_step(ReaderStep::Close));
    assert!(state.page == Page::Index);
    assert_eq!(state.progress[0].ayah(), 9);
}

#[test]
fn started_at_stamps_the_time_given() {
    let p = Progress::started_at(2, 1_234_567);
    assert_eq!(p.last_on(), 1_234_567);
    assert_eq!(p.surah(), 2);
    assert_eq!(p.ayah(), 0);
    let q = Progress::started_at(9, -5);
    assert_eq!(q.last_on(), -5);
    assert_eq!(q.ayah(), 1);
}

#[test]
fn open_progress_pushes_and_opens_a_reader() {
    let saved = vec![Progress::from_parts(5, 3, 4)];
    let mut state = AppState::load(saved);
    state.open_progress(Progress::started_at(1, 77));
    assert_eq!(state.progress.len(), 2);
    assert_eq!(state.progress[0].surah(), 3);
    assert_eq!(state.progress[1].surah(), 1);
    assert_eq!(state.progress[1].ayah(), 1);
    assert_eq!(state.progress[1].last_on(), 77);
    assert!(state.page == Page::Reader);
    let (idx, reader) = state.reader.as_ref().unwrap();
    assert_eq!(*idx, 1);
    assert_eq!(reader.surah, 1);
    assert_eq!(reader.jump_to_ayah_index, Some(0));
    assert!(!reader.is_scrolling);
    // The selected entry is the one pushed.
    state.selected_progress_mut().unwrap().set_ayah(4);
    assert_eq!(state.progress[1].ayah(), 4);
    assert_eq!(state.progress[0].ayah(), 4);
    state.open_progress(Progress::from_parts(8, 2, 3));
    let (idx, reader) = state.reader.as_ref().unwrap();
    assert_eq!(*idx, 2);
    assert_eq!(reader.jump_to_ayah_index, Some(3));
}

#[test]
fn jump_target_is_an_ayah_number() {
    // Surah 1 shows no basmalah: position 4 is ayah 5.
    let mut r = Progress::from_parts(0, 1, 3).reader();
    assert_eq!(r.jump_target(), Some(3));
    r.jump_to_ayah(5);
    assert_eq!(r.jump_target(), Some(5));
    // Surah 2 shows the basmalah at position 0: positions are ayah numbers.
    let mut r2 = Progress::from_parts(0, 2, 0).reader();
    assert_eq!(r2.jump_target(), Some(0));
    r2.jump_to_ayah(4);
    assert_eq!(r2.jump_target(), Some(4));
    r2.scrolled_to(2);
    assert_eq!(r2.jump_target(), None);
}

#[test]
fn slider_stops_one_short_of_the_last_ayah() {
    let data = small();
    let r1 = Progress::from_parts(0, 1, 1).reader();
    assert_eq!(r1.slider_bounds(&data), (1, 6));
    let r2 = Progress::from_parts(0, 2, 0).reader();
    assert_eq!(r2.slider_bounds(&data), (0, 4));
}
