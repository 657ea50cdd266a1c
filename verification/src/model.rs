use vstd::prelude::*;

mod reading_log;

pub use reading_log::{Progress, ProgressView, TIMESTAMP_MAX_NANOS, TIMESTAMP_MIN_NANOS};

verus! {

// --- MARK: SURAH TABLE

/// Whether a surah is recited with a basmalah before its first ayah that is
/// not one of its ayahs: every surah but Al-Fatihah (number 1, where the
/// basmalah is ayah 1) and At-Tawbah (number 9, which has none).
pub open spec fn needs_basmalah(surah: u8) -> bool {
    surah != 1 && surah != 9
}

/// See [`needs_basmalah`].
pub fn surah_needs_basmalah(surah: u8) -> (r: bool)
    ensures
        r == needs_basmalah(surah),
{
    !(surah == 1 || surah == 9)
}

/// Where a surah was revealed.
#[derive(Clone, Copy, Debug, PartialEq, Eq, Structural)]
pub enum PlaceOfRevelation {
    Makkah,
    Madinah,
}

/// One row of the surah table.
///
/// `cumulative_ayahs` is the number of ayahs in all the surahs before this
/// one, so that the ayah `a` (counting from 1) of this surah is the text
/// number `cumulative_ayahs + a` of the whole mushaf.
#[derive(Clone, Copy, Debug)]
pub struct SurahInfo {
    pub name_ar: &'static str,
    pub name_en: &'static str,
    pub name_en_simple: &'static str,
    pub ayahs: u16,
    pub cumulative_ayahs: u16,
    pub revealed_in: PlaceOfRevelation,
}

/// A position in the mushaf, ordered by surah first and by ayah second.
pub type AyahKey = (u8, u16);

/// `a` comes strictly before `b` in reading order.
pub open spec fn key_lt(a: AyahKey, b: AyahKey) -> bool {
    a.0 < b.0 || (a.0 == b.0 && a.1 < b.1)
}

/// `a` comes before `b` in reading order, or is `b`.
pub open spec fn key_le(a: AyahKey, b: AyahKey) -> bool {
    a.0 < b.0 || (a.0 == b.0 && a.1 <= b.1)
}

/// Every entry of `t` comes strictly before the entries after it.
pub open spec fn strictly_increasing(t: Seq<AyahKey>) -> bool {
    forall|i: int, j: int| 0 <= i < j < t.len() ==> key_lt(#[trigger] t[i], #[trigger] t[j])
}

/// The number of the text (in the table of all ayah texts) that holds ayah
/// `ayah` of the surah described by `info`; number 0 is the basmalah.
pub open spec fn ayah_text_index(info: SurahInfo, ayah: u16) -> int {
    if ayah == 0 {
        0
    } else {
        info.cumulative_ayahs + ayah
    }
}

/// What the three tables of the mushaf must satisfy.
///
/// - `ayahs[0]` is the basmalah, so there is at least one text;
/// - every ayah of every surah has its text, and its text number fits in a `u16`;
/// - the surahs from number 1 on follow each other in the text table;
/// - the first ayahs of the pages come in strictly increasing reading order.
pub open spec fn valid_tables(
    surahs: Seq<SurahInfo>,
    ayahs: Seq<&'static str>,
    first_ayahs: Seq<AyahKey>,
) -> bool {
    &&& ayahs.len() >= 1
    &&& forall|s: int|
        0 <= s < surahs.len() ==> {
            &&& #[trigger] surahs[s].cumulative_ayahs + surahs[s].ayahs < ayahs.len()
            &&& surahs[s].cumulative_ayahs + surahs[s].ayahs <= u16::MAX
        }
    &&& surahs.len() > 1 ==> surahs[1].cumulative_ayahs == 0
    &&& forall|s: int|
        1 <= s < surahs.len() - 1 ==> #[trigger] surahs[s + 1].cumulative_ayahs
            == surahs[s].cumulative_ayahs + surahs[s].ayahs
    &&& strictly_increasing(first_ayahs)
}

/// The abstract content of a [`QuranData`].
pub struct QuranDataView {
    pub surahs: Seq<SurahInfo>,
    pub ayahs: Seq<&'static str>,
    pub first_ayahs: Seq<AyahKey>,
}

/// The tables of the mushaf: the surahs (indexed by surah number, entry 0
/// being unused), the text of every ayah (entry 0 being the basmalah) and the
/// first ayah of every page (page `p + 1` starts at `first_ayahs[p]`).
pub struct QuranData {
    surahs: Vec<SurahInfo>,
    ayahs: Vec<&'static str>,
    first_ayahs: Vec<AyahKey>,
}

impl View for QuranData {
    type V = QuranDataView;

    closed spec fn view(&self) -> QuranDataView {
        QuranDataView { surahs: self.surahs@, ayahs: self.ayahs@, first_ayahs: self.first_ayahs@ }
    }
}

impl QuranData {
    /// The tables satisfy [`valid_tables`]; [`QuranData::new`] builds no
    /// other, and nothing changes them after.
    #[verifier::type_invariant]
    spec fn tables_are_valid(self) -> bool {
        valid_tables(self.surahs@, self.ayahs@, self.first_ayahs@)
    }

    /// The tables satisfy [`valid_tables`].
    pub open spec fn wf(&self) -> bool {
        valid_tables(self@.surahs, self@.ayahs, self@.first_ayahs)
    }

    /// Builds the tables, or `None` where they do not satisfy [`valid_tables`].
    pub fn new(surahs: Vec<SurahInfo>, ayahs: Vec<&'static str>, first_ayahs: Vec<AyahKey>) -> (r:
        Option<QuranData>)
        ensures
            r is Some <==> valid_tables(surahs@, ayahs@, first_ayahs@),
            r matches Some(d) ==> {
                &&& d.wf()
                &&& d@.surahs == surahs@
                &&& d@.ayahs == ayahs@
                &&& d@.first_ayahs == first_ayahs@
            },
    {
        if ayahs.len() == 0 {
            return None;
        }
        let n = surahs.len();
        let mut s: usize = 0;
        while s < n
            invariant
                n == surahs@.len(),
                s <= n,
                forall|k: int|
                    0 <= k < s ==> {
                        &&& #[trigger] surahs@[k].cumulative_ayahs + surahs@[k].ayahs < ayahs@.len()
                        &&& surahs@[k].cumulative_ayahs + surahs@[k].ayahs <= u16::MAX
                    },
            decreases n - s,
        {
            let end = surahs[s].cumulative_ayahs as usize + surahs[s].ayahs as usize;
            if end >= ayahs.len() || end > 65535 {
                return None;
            }
            s += 1;
        }
        if n > 1 && surahs[1].cumulative_ayahs != 0 {
            return None;
        }
        let mut s: usize = 1;
        while n > 1 && s < n - 1
            invariant
                n == surahs@.len(),
                1 <= s,
                n <= 1 || s < n,
                forall|k: int|
                    1 <= k < s ==> #[trigger] surahs@[k + 1].cumulative_ayahs
                        == surahs@[k].cumulative_ayahs + surahs@[k].ayahs,
            decreases n - s,
        {
            if surahs[s + 1].cumulative_ayahs as usize != surahs[s].cumulative_ayahs as usize
                + surahs[s].ayahs as usize {
                return None;
            }
            s += 1;
        }
        let m = first_ayahs.len();
        let mut p: usize = 1;
        while p < m
            invariant
                m == first_ayahs@.len(),
                1 <= p,
                forall|i: int, j: int|
                    0 <= i < j < p && j < m ==> key_lt(
                        #[trigger] first_ayahs@[i],
                        #[trigger] first_ayahs@[j],
                    ),
            decreases m - p,
        {
            let a = first_ayahs[p - 1];
            let b = first_ayahs[p];
            if !(a.0 < b.0 || (a.0 == b.0 && a.1 < b.1)) {
                proof {
                    assert(!key_lt(first_ayahs@[p - 1], first_ayahs@[p as int]));
                }
                return None;
            }
            proof {
                assert forall|i: int, j: int| 0 <= i < j < p + 1 && j < m implies key_lt(
                    #[trigger] first_ayahs@[i],
                    #[trigger] first_ayahs@[j],
                ) by {
                    if j == p && i < p - 1 {
                        assert(key_lt(first_ayahs@[i], first_ayahs@[p - 1]));
                    }
                }
            }
            p += 1;
        }
        Some(QuranData { surahs, ayahs, first_ayahs })
    }

    /// The row of surah `surah`.
    pub fn surah_info(&self, surah: u8) -> (r: SurahInfo)
        requires
            (surah as int) < self@.surahs.len(),
        ensures
            r == self@.surahs[surah as int],
    {
        self.surahs[surah as usize]
    }

    /// The number of rows of the surah table (entry 0 included).
    pub fn surah_count(&self) -> (r: usize)
        ensures
            r == self@.surahs.len(),
    {
        self.surahs.len()
    }

    /// The number of pages.
    pub fn page_count(&self) -> (r: usize)
        ensures
            r == self@.first_ayahs.len(),
    {
        self.first_ayahs.len()
    }
}

// --- MARK: PAGES

/// The key under which an ayah is looked up among the first ayahs of the
/// pages: the basmalah (ayah 0) stands on the page of ayah 1.
pub open spec fn page_key(surah: u8, ayah: u16) -> AyahKey {
    (surah, if ayah == 0 {
        1u16
    } else {
        ayah
    })
}

/// `p` pages start at or before `key`, and the others start after it: `key`
/// is on page `p` (pages counting from 1; 0 where it comes before the first).
pub open spec fn is_page_of(t: Seq<AyahKey>, key: AyahKey, p: int) -> bool {
    &&& 0 <= p <= t.len()
    &&& forall|i: int| 0 <= i < p ==> key_le(#[trigger] t[i], key)
    &&& forall|i: int| p <= i < t.len() ==> key_lt(key, #[trigger] t[i])
}

/// Binary search of `key` in the strictly increasing `table`: `Ok` with its
/// position where it is there, else `Err` with the position where it would be
/// inserted.
fn search_key(table: &Vec<AyahKey>, key: AyahKey) -> (r: Result<usize, usize>)
    requires
        strictly_increasing(table@),
    ensures
        r is Ok <==> table@.contains(key),
        r matches Ok(p) ==> p < table@.len() && table@[p as int] == key,
        r matches Err(p) ==> {
            &&& p <= table@.len()
            &&& forall|i: int| 0 <= i < p ==> key_lt(#[trigger] table@[i], key)
            &&& forall|i: int| p <= i < table@.len() ==> key_lt(key, #[trigger] table@[i])
        },
{
    let mut lo: usize = 0;
    let mut hi: usize = table.len();
    while lo < hi
        invariant
            lo <= hi <= table@.len(),
            strictly_increasing(table@),
            forall|i: int| 0 <= i < lo ==> key_lt(#[trigger] table@[i], key),
            forall|i: int| hi <= i < table@.len() ==> key_lt(key, #[trigger] table@[i]),
        decreases hi - lo,
    {
        let mid = lo + (hi - lo) / 2;
        let e = table[mid];
        if e.0 == key.0 && e.1 == key.1 {
            proof {
                assert(table@[mid as int] == key);
            }
            return Ok(mid);
        } else if e.0 < key.0 || (e.0 == key.0 && e.1 < key.1) {
            proof {
                assert forall|i: int| 0 <= i < mid + 1 implies key_lt(#[trigger] table@[i], key) by {
                    if i < mid {
                        assert(key_lt(table@[i], table@[mid as int]));
                    }
                }
            }
            lo = mid + 1;
        } else {
            proof {
                assert forall|i: int| mid <= i < table@.len() implies key_lt(
                    key,
                    #[trigger] table@[i],
                ) by {
                    if i > mid {
                        assert(key_lt(table@[mid as int], table@[i]));
                    }
                }
            }
            hi = mid;
        }
    }
    proof {
        assert forall|i: int| 0 <= i < table@.len() implies table@[i] != key by {
            if i < lo {
                assert(key_lt(table@[i], key));
            } else {
                assert(key_lt(key, table@[i]));
            }
        }
    }
    Err(lo)
}

/// The page on which ayah `ayah` of surah `surah` stands (the basmalah counts
/// as ayah 1): the number of pages that start at or before it.
pub fn page_of(data: &QuranData, surah: u8, ayah: u16) -> (r: usize)
    ensures
        is_page_of(data@.first_ayahs, page_key(surah, ayah), r as int),
    decreases (if ayah == 0 {
        1int
    } else {
        0int
    }),
{
    proof {
        use_type_invariant(data);
    }
    if ayah == 0 {
        page_of(data, surah, 1)
    } else {
        proof {
            // The number of pages is a `usize`, so a page number fits one.
            assert(data.first_ayahs@.len() == data.first_ayahs.len());
        }
        match search_key(&data.first_ayahs, (surah, ayah)) {
            Ok(p) => {
                proof {
                    lemma_first_ayah_is_on_its_page(data@.first_ayahs, (surah, ayah), p as int + 1);
                }
                p + 1
            },
            Err(p) => {
                proof {
                    assert forall|i: int| 0 <= i < p implies key_le(
                        #[trigger] data@.first_ayahs[i],
                        (surah, ayah),
                    ) by {
                        assert(key_lt(data@.first_ayahs[i], (surah, ayah)));
                    }
                }
                p
            },
        }
    }
}

/// An ayah that starts page `p` is on page `p`.
pub proof fn lemma_first_ayah_is_on_its_page(t: Seq<AyahKey>, key: AyahKey, p: int)
    requires
        strictly_increasing(t),
        1 <= p <= t.len(),
        t[p - 1] == key,
    ensures
        is_page_of(t, key, p),
{
    assert forall|i: int| 0 <= i < p implies key_le(#[trigger] t[i], key) by {
        if i < p - 1 {
            assert(key_lt(t[i], t[p - 1]));
        }
    }
    assert forall|i: int| p <= i < t.len() implies key_lt(key, #[trigger] t[i]) by {
        assert(key_lt(t[p - 1], t[i]));
    }
}

/// An ayah stands on one page only.
pub proof fn lemma_page_is_unique(t: Seq<AyahKey>, key: AyahKey, p: int, q: int)
    requires
        is_page_of(t, key, p),
        is_page_of(t, key, q),
    ensures
        p == q,
{
    if p < q {
        assert(key_le(t[p], key));
        assert(key_lt(key, t[p]));
    } else if q < p {
        assert(key_le(t[q], key));
        assert(key_lt(key, t[q]));
    }
}


// --- MARK: AYAH NUMBERING

/// The first ayah number that a reader shows for `surah`: 0 (the basmalah)
/// where the surah needs one, else 1.
pub open spec fn first_ayah(surah: u8) -> int {
    if needs_basmalah(surah) {
        0
    } else {
        1
    }
}

/// The position, among the items that a reader shows, of ayah `ayah`.
pub open spec fn ayah_index(surah: u8, ayah: int) -> int {
    ayah - first_ayah(surah)
}

/// The ayah shown at position `index` of a reader.
pub open spec fn index_ayah(surah: u8, index: int) -> int {
    index + first_ayah(surah)
}

/// The number of items that a reader shows for a surah of `ayahs` ayahs:
/// its ayahs and, where it needs one, the basmalah.
pub open spec fn shown_count(surah: u8, ayahs: u16) -> int {
    ayahs + if needs_basmalah(surah) {
        1int
    } else {
        0int
    }
}

/// A reader shows the basmalah first exactly where the surah needs one: it
/// then starts at ayah 0 and shows one item more than the surah has ayahs;
/// otherwise it starts at ayah 1 and shows the ayahs alone. The first ayah
/// shown is at position 0.
pub proof fn lemma_reader_shows_basmalah_where_needed(surah: u8, ayahs: u16)
    ensures
        first_ayah(surah) == 0 <==> needs_basmalah(surah),
        !needs_basmalah(surah) ==> first_ayah(surah) == 1,
        shown_count(surah, ayahs) == ayahs + 1 <==> needs_basmalah(surah),
        !needs_basmalah(surah) ==> shown_count(surah, ayahs) == ayahs,
        ayah_index(surah, first_ayah(surah)) == 0,
        needs_basmalah(surah) <==> surah != 1 && surah != 9,
{
}

/// The reading state of one surah.
///
/// `jump_to_ayah_index` is a pending jump, kept as a position among the items
/// that the reader shows (see [`ayah_index`]), not as an ayah number; the
/// scroller knows its items by their ayah numbers, and
/// [`ScrollingReader::jump_target`] gives the jump in those terms.
pub struct ScrollingReader {
    pub surah: u8,
    pub jump_to_ayah_index: Option<usize>,
    pub is_scrolling: bool,
}

impl ScrollingReader {
    /// The text of ayah `ayah` of this surah; ayah 0 is the basmalah.
    pub fn ayah_text(&self, data: &QuranData, ayah: u16) -> (r: &'static str)
        requires
            (self.surah as int) < data@.surahs.len(),
            ayah_text_index(data@.surahs[self.surah as int], ayah) < data@.ayahs.len(),
            ayah_text_index(data@.surahs[self.surah as int], ayah) <= u16::MAX,
        ensures
            r == data@.ayahs[ayah_text_index(data@.surahs[self.surah as int], ayah)],
    {
        data.ayahs[if ayah == 0 {
            0
        } else {
            (data.surahs[self.surah as usize].cumulative_ayahs + ayah) as usize
        }]
    }

    /// `Some(p)` where ayah `ayah` (ayah 1 for the basmalah) is the first
    /// ayah of page `p`, else `None`.
    pub fn is_ayah_on_page_boundary(&self, data: &QuranData, ayah: u16) -> (r: Option<usize>)
        ensures
            r is Some <==> data@.first_ayahs.contains(page_key(self.surah, ayah)),
            r matches Some(p) ==> {
                &&& 1 <= p <= data@.first_ayahs.len()
                &&& data@.first_ayahs[p - 1] == page_key(self.surah, ayah)
                &&& is_page_of(data@.first_ayahs, page_key(self.surah, ayah), p as int)
            },
        decreases (if ayah == 0 {
            1int
        } else {
            0int
        }),
    {
        proof {
            use_type_invariant(data);
        }
        if ayah == 0 {
            self.is_ayah_on_page_boundary(data, 1)
        } else {
            proof {
                assert(data.first_ayahs@.len() == data.first_ayahs.len());
            }
            match search_key(&data.first_ayahs, (self.surah, ayah)) {
                Ok(p) => {
                    proof {
                        lemma_first_ayah_is_on_its_page(
                            data@.first_ayahs,
                            (self.surah, ayah),
                            p as int + 1,
                        );
                    }
                        Some(p + 1)
                },
                Err(_) => None,
            }
        }
    }

    /// The ayahs this reader shows: from the basmalah (0) or ayah 1 to the
    /// last ayah of the surah.
    pub fn ayah_range(&self, data: &QuranData) -> (r: core::ops::RangeInclusive<u16>)
        requires
            (self.surah as int) < data@.surahs.len(),
        ensures
            r@.start == first_ayah(self.surah),
            r@.end == data@.surahs[self.surah as int].ayahs,
            !r@.exhausted,
    {
        let start: u16 = if surah_needs_basmalah(self.surah) {
            0
        } else {
            1
        };
        start..=data.surahs[self.surah as usize].ayahs
    }

    /// The bounds of the ayah slider: from the first ayah shown to the one
    /// before the last ayah of the surah.
    pub fn slider_bounds(&self, data: &QuranData) -> (r: (u16, u16))
        requires
            (self.surah as int) < data@.surahs.len(),
            data@.surahs[self.surah as int].ayahs >= 1,
        ensures
            r.0 == first_ayah(self.surah),
            r.1 == data@.surahs[self.surah as int].ayahs - 1,
    {
        let start: u16 = if surah_needs_basmalah(self.surah) {
            0
        } else {
            1
        };
        (start, data.surahs[self.surah as usize].ayahs - 1)
    }

    /// The pending jump as the scroller's item id, that is the ayah number
    /// shown at the pending position; `None` where no jump is pending.
    pub fn jump_target(&self) -> (r: Option<i64>)
        requires
            self.jump_to_ayah_index matches Some(i) ==> i < i64::MAX,
        ensures
            r == match self.jump_to_ayah_index {
                Some(i) => Some(index_ayah(self.surah, i as int) as i64),
                None => None,
            },
    {
        match self.jump_to_ayah_index {
            Some(i) => Some(
                if surah_needs_basmalah(self.surah) {
                    i as i64
                } else {
                    i as i64 + 1
                },
            ),
            None => None,
        }
    }

    /// The number of items this reader shows.
    pub fn ayahs_count(&self, data: &QuranData) -> (r: usize)
        requires
            (self.surah as int) < data@.surahs.len(),
        ensures
            r == shown_count(self.surah, data@.surahs[self.surah as int].ayahs),
    {
        data.surahs[self.surah as usize].ayahs as usize + if surah_needs_basmalah(self.surah) {
            1
        } else {
            0
        }
    }

    /// The ayah shown at position `index` (truncated to 16 bits, as the
    /// position is cast).
    pub fn index_to_ayah(&self, index: usize) -> (r: u16)
        requires
            needs_basmalah(self.surah) || index < usize::MAX,
        ensures
            r == index_ayah(self.surah, index as int) as u16,
    {
        (if surah_needs_basmalah(self.surah) {
            index
        } else {
            index + 1
        }) as u16
    }

    /// The list was scrolled so that item `first_visible` (an ayah number)
    /// is the first on screen: the pending jump is dropped, and the ayah to
    /// record as read is returned (the id cast to 16 bits).
    pub fn scrolled_to(&mut self, first_visible: i64) -> (ayah: u16)
        ensures
            ayah == first_visible as u16,
            final(self).jump_to_ayah_index is None,
            final(self).surah == old(self).surah,
            final(self).is_scrolling == old(self).is_scrolling,
    {
        self.jump_to_ayah_index = None;
        first_visible as u16
    }

    /// The user chose ayah `ayah` (on the slider): the reader jumps to its
    /// position, and the ayah to record as read is returned.
    pub fn jump_to_ayah(&mut self, ayah: u16) -> (r: u16)
        requires
            needs_basmalah(old(self).surah) || ayah >= 1,
        ensures
            r == ayah,
            final(self).jump_to_ayah_index == Some(ayah_index(old(self).surah, ayah as int) as usize),
            final(self).surah == old(self).surah,
            final(self).is_scrolling == old(self).is_scrolling,
    {
        self.jump_to_ayah_index = Some(self.ayah_to_index(ayah));
        ayah
    }

    /// Starts or stops the automatic scrolling.
    pub fn toggle_scrolling(&mut self)
        ensures
            final(self).is_scrolling == !old(self).is_scrolling,
            final(self).surah == old(self).surah,
            final(self).jump_to_ayah_index == old(self).jump_to_ayah_index,
    {
        self.is_scrolling = !self.is_scrolling;
    }

    /// The position at which ayah `ayah` is shown.
    pub fn ayah_to_index(&self, ayah: u16) -> (r: usize)
        requires
            needs_basmalah(self.surah) || ayah >= 1,
        ensures
            r == ayah_index(self.surah, ayah as int),
    {
        (if surah_needs_basmalah(self.surah) {
            ayah
        } else {
            ayah - 1
        }) as usize
    }
}

/// The ayahs a reader shows and its positions correspond one to one: the
/// position of an ayah of the range is below the count, and the ayah shown
/// there is that ayah again; the range holds exactly `shown_count` ayahs.
pub proof fn lemma_ayah_index_round_trip(surah: u8, ayahs: u16, ayah: int)
    requires
        first_ayah(surah) <= ayah <= ayahs,
    ensures
        0 <= ayah_index(surah, ayah) < shown_count(surah, ayahs),
        index_ayah(surah, ayah_index(surah, ayah)) == ayah,
        ayahs - first_ayah(surah) + 1 == shown_count(surah, ayahs),
{
}

/// Every position below the count shows an ayah of the range, which fits in
/// a `u16` (so the cast in `index_to_ayah` keeps it), and whose position is
/// that position again.
pub proof fn lemma_index_ayah_round_trip(surah: u8, ayahs: u16, index: int)
    requires
        0 <= index < shown_count(surah, ayahs),
    ensures
        first_ayah(surah) <= index_ayah(surah, index) <= ayahs,
        index_ayah(surah, index) as u16 == index_ayah(surah, index),
        ayah_index(surah, index_ayah(surah, index)) == index,
{
}

/// The first ayah of a page is on that page, whichever way it is looked
/// up: where `is_ayah_on_page_boundary` answers `Some(p)`, `page_of` answers
/// `p` for the same ayah.
pub proof fn lemma_boundary_agrees_with_page_of(t: Seq<AyahKey>, key: AyahKey, p: int, q: int)
    requires
        strictly_increasing(t),
        1 <= p <= t.len(),
        t[p - 1] == key,
        is_page_of(t, key, q),
    ensures
        p == q,
{
    lemma_first_ayah_is_on_its_page(t, key, p);
    lemma_page_is_unique(t, key, p, q);
}

/// Distinct ayahs of the surahs from number 1 on have distinct texts.
pub proof fn lemma_ayah_texts_are_distinct(
    surahs: Seq<SurahInfo>,
    ayahs: Seq<&'static str>,
    first_ayahs: Seq<AyahKey>,
    s1: int,
    a1: u16,
    s2: int,
    a2: u16,
)
    requires
        valid_tables(surahs, ayahs, first_ayahs),
        1 <= s1 < surahs.len(),
        1 <= s2 < surahs.len(),
        1 <= a1 <= surahs[s1].ayahs,
        1 <= a2 <= surahs[s2].ayahs,
        s1 != s2 || a1 != a2,
    ensures
        ayah_text_index(surahs[s1], a1) != ayah_text_index(surahs[s2], a2),
{
    if s1 < s2 {
        lemma_cumulative_grows(surahs, ayahs, first_ayahs, s1, s2);
    } else if s2 < s1 {
        lemma_cumulative_grows(surahs, ayahs, first_ayahs, s2, s1);
    }
}

/// A later surah starts after all the ayahs of an earlier one.
proof fn lemma_cumulative_grows(
    surahs: Seq<SurahInfo>,
    ayahs: Seq<&'static str>,
    first_ayahs: Seq<AyahKey>,
    s1: int,
    s2: int,
)
    requires
        valid_tables(surahs, ayahs, first_ayahs),
        1 <= s1 < s2 < surahs.len(),
    ensures
        surahs[s1].cumulative_ayahs + surahs[s1].ayahs <= surahs[s2].cumulative_ayahs,
    decreases s2 - s1,
{
    assert(surahs[s1 + 1].cumulative_ayahs == surahs[s1].cumulative_ayahs + surahs[s1].ayahs);
    if s1 + 1 < s2 {
        lemma_cumulative_grows(surahs, ayahs, first_ayahs, s1 + 1, s2);
    }
}


// --- MARK: APP STATE

/// The screen that the application shows.
#[derive(Clone, Copy, Debug, PartialEq, Eq, Structural)]
pub enum Page {
    Index,
    About,
    Reader,
}

/// The state of the application, apart from the preferences and the window
/// width, which hold floating-point numbers.
pub struct AppState {
    pub progress: Vec<Progress>,
    pub page: Page,
    pub reader: Option<(usize, ScrollingReader)>,
}

/// `p` can be opened in a reader: its ayah has a position.
pub open spec fn can_open(p: ProgressView) -> bool {
    needs_basmalah(p.surah) || p.ayah >= 1
}

/// What the reader asks of the application, apart from the changes of the
/// preferences (which hold floating-point numbers).
#[derive(Clone, Copy, Debug, PartialEq, Eq, Structural)]
pub enum ReaderStep {
    /// The user is at this ayah: record it.
    SetAyah(u16),
    /// Close the reader and go back to the index.
    Close,
    /// Nothing to do.
    Nothing,
}

impl AppState {
    /// The state at start-up: the index, no reader open.
    pub fn load(progress: Vec<Progress>) -> (r: Self)
        ensures
            r.progress@ == progress@,
            r.page == Page::Index,
            r.reader is None,
    {
        AppState { progress, page: Page::Index, reader: None }
    }

    /// Opens a reader for `progress`, which is entry `idx` of the progress
    /// list, and shows it.
    pub fn set_reader(&mut self, idx: usize, progress: Progress)
        requires
            can_open(progress@),
        ensures
            final(self).progress@ == old(self).progress@,
            final(self).page == Page::Reader,
            final(self).reader matches Some((i, r)) && i == idx && r.surah == progress@.surah
                && r.jump_to_ayah_index == Some(
                ayah_index(progress@.surah, progress@.ayah as int) as usize,
            ) && !r.is_scrolling,
    {
        self.reader = Some((idx, progress.reader()));
        self.page = Page::Reader;
    }

    /// The progress entry of the open reader, if a reader is open.
    pub fn selected_progress_mut(&mut self) -> (r: Option<&mut Progress>)
        requires
            old(self).reader matches Some((i, _)) ==> i < old(self).progress@.len(),
        ensures
            old(self).reader is None ==> r is None && *final(self) == *old(self),
            old(self).reader matches Some((i, _)) ==> r matches Some(p) && *p == old(
                self,
            ).progress@[i as int] && final(self).progress@ == old(self).progress@.update(
                i as int,
                *final(p),
            ) && final(self).page == old(self).page && final(self).reader == old(self).reader,
    {
        match &self.reader {
            Some((i, _)) => {
                let i = *i;
                Some(&mut self.progress[i])
            },
            None => None,
        }
    }

    /// Adds `p` at the end of the progress list and opens a reader on it,
    /// which jumps to the ayah that `p` records.
    pub fn open_progress(&mut self, p: Progress)
        requires
            can_open(p@),
        ensures
            final(self).progress@ == old(self).progress@.push(p),
            final(self).page == Page::Reader,
            final(self).reader matches Some((i, r)) && i == old(self).progress@.len() && r.surah
                == p@.surah && r.jump_to_ayah_index == Some(
                ayah_index(p@.surah, p@.ayah as int) as usize,
            ) && !r.is_scrolling,
    {
        let idx = self.progress.len();
        self.set_reader(idx, p);
        self.progress.push(p);
    }

    /// Starts reading `surah`: stamps a new progress with the current time
    /// (the entry pushed is `clock_stamped`: its time is one that the system
    /// clock gave, not one made up) and hands it to
    /// [`AppState::open_progress`]. Returns whether it did;
    /// where the system clock cannot be read as a timestamp nothing changes.
    pub fn open_new_surah(&mut self, surah: u8) -> (opened: bool)
        ensures
            !opened ==> *final(self) == *old(self),
            opened ==> {
                &&& final(self).progress@ == old(self).progress@.push(final(self).progress@.last())
                &&& final(self).progress@.last()@.surah == surah
                &&& final(self).progress@.last()@.ayah == first_ayah(surah)
                &&& TIMESTAMP_MIN_NANOS <= final(self).progress@.last()@.last_on
                    <= TIMESTAMP_MAX_NANOS
                &&& final(self).progress@.last()@.clock_stamped
                &&& final(self).page == Page::Reader
                &&& final(self).reader matches Some((i, r)) && i == old(self).progress@.len()
                    && r.surah == surah && r.jump_to_ayah_index == Some(0usize)
                    && !r.is_scrolling
            },
    {
        match Progress::new(surah) {
            Some(new_progress) => {
                self.open_progress(new_progress);
                true
            },
            None => false,
        }
    }

    /// Carries out what the reader asked; returns whether the user data
    /// changed (and should be saved).
    pub fn apply_reader_step(&mut self, step: ReaderStep) -> (changed: bool)
        requires
            step matches ReaderStep::SetAyah(_) ==> old(self).reader matches Some((i, _)) && i
                < old(self).progress@.len(),
        ensures
            match step {
                ReaderStep::SetAyah(ayah) => match old(self).reader {
                    Some((i, _)) => {
                        &&& changed
                        &&& final(self).progress@.len() == old(self).progress@.len()
                        &&& final(self).progress@[i as int]@ == (ProgressView {
                            ayah,
                            ..old(self).progress@[i as int]@
                        })
                        &&& forall|j: int|
                            0 <= j < old(self).progress@.len() && j != i ==> #[trigger] final(self).progress@[j]
                                == old(self).progress@[j]
                        &&& final(self).page == old(self).page
                        &&& final(self).reader == old(self).reader
                    },
                    None => false,
                },
                ReaderStep::Close => {
                    &&& !changed
                    &&& final(self).page == Page::Index
                    &&& final(self).progress@ == old(self).progress@
                    &&& final(self).reader == old(self).reader
                },
                ReaderStep::Nothing => !changed && *final(self) == *old(self),
            },
    {
        match step {
            ReaderStep::SetAyah(ayah) => {
                match self.selected_progress_mut() {
                    Some(p) => p.set_ayah(ayah),
                    None => {},
                }
                true
            },
            ReaderStep::Close => {
                self.page = Page::Index;
                false
            },
            ReaderStep::Nothing => false,
        }
    }

    /// Which of the three screens (index, about, reader) is shown: the
    /// index stands in for a reader page with no reader open.
    pub fn active_screen(&self) -> (r: usize)
        ensures
            r == match self.page {
                Page::Index => 0usize,
                Page::About => 1usize,
                Page::Reader => if self.reader is None {
                    0usize
                } else {
                    2usize
                },
            },
    {
        match self.page {
            Page::Index => 0,
            Page::About => 1,
            Page::Reader => if self.reader.is_none() {
                0
            } else {
                2
            },
        }
    }
}

} // verus!
