//! The 16-entry palette used by the `UsePalette` operation.
use vstd::prelude::*;

use crate::color::AmigaRgb;

verus! {

/// A fixed table of sixteen colors, indexed `0..16`.
pub struct ColorMap {
    pub colors: [AmigaRgb; 16],
}

/// Index of the first color among `colors[0..n]` closest to `needle`: a
/// later entry replaces the running choice only when it is strictly closer.
pub open spec fn nearest_upto(colors: Seq<AmigaRgb>, needle: AmigaRgb, n: int) -> int
    decreases n,
{
    if n <= 1 {
        0
    } else {
        let i = nearest_upto(colors, needle, n - 1);
        if colors[n - 1].spec_dist2(&needle) < colors[i].spec_dist2(&needle) {
            n - 1
        } else {
            i
        }
    }
}

/// Index of the palette entry closest to `needle`, the lowest one on ties.
pub open spec fn nearest_index(colors: Seq<AmigaRgb>, needle: AmigaRgb) -> int {
    nearest_upto(colors, needle, colors.len() as int)
}

pub open spec fn amiga(red: u8, green: u8, blue: u8) -> AmigaRgb {
    AmigaRgb { red, green, blue }
}

/// The preset palette: black, the dark and bright primaries and secondaries,
/// two grays and white.
pub open spec fn default_colors() -> Seq<AmigaRgb> {
    seq![
        amiga(0, 0, 0), amiga(8, 0, 0), amiga(0, 8, 0), amiga(8, 8, 0),
        amiga(0, 0, 8), amiga(8, 0, 8), amiga(0, 8, 8), amiga(12, 12, 12),
        amiga(8, 8, 8), amiga(15, 0, 0), amiga(0, 15, 0), amiga(15, 15, 0),
        amiga(0, 0, 15), amiga(15, 0, 15), amiga(0, 15, 15), amiga(15, 15, 15),
    ]
}

/// Every entry is black.
pub open spec fn empty_colors() -> Seq<AmigaRgb> {
    Seq::new(16, |i: int| amiga(0, 0, 0))
}

impl View for ColorMap {
    type V = Seq<AmigaRgb>;

    open spec fn view(&self) -> Seq<AmigaRgb> {
        self.colors@
    }
}

/// For `n` in `1..=colors.len()`, `nearest_upto(colors, needle, n)` is an
/// index below `n` whose entry is at least as close as every entry below `n`
/// and strictly closer than every entry before it.
pub proof fn lemma_nearest_upto(colors: Seq<AmigaRgb>, needle: AmigaRgb, n: int)
    requires
        1 <= n <= colors.len(),
    ensures
        0 <= nearest_upto(colors, needle, n) < n,
        forall|j: int|
            0 <= j < n ==> colors[nearest_upto(colors, needle, n)].spec_dist2(&needle)
                <= #[trigger] colors[j].spec_dist2(&needle),
        forall|j: int|
            0 <= j < nearest_upto(colors, needle, n) ==> colors[nearest_upto(colors, needle, n)].spec_dist2(
                &needle,
            ) < #[trigger] colors[j].spec_dist2(&needle),
    decreases n,
{
    if n > 1 {
        lemma_nearest_upto(colors, needle, n - 1);
    }
}

/// When two palette entries are equally close to `needle`, the one with the
/// higher index is never the nearest.
pub proof fn lemma_nearest_prefers_lower_index(
    colors: Seq<AmigaRgb>,
    needle: AmigaRgb,
    lower: int,
    higher: int,
)
    requires
        colors.len() == 16,
        0 <= lower < higher < 16,
        colors[lower].spec_dist2(&needle) == colors[higher].spec_dist2(&needle),
    ensures
        nearest_index(colors, needle) != higher,
{
    lemma_nearest_upto(colors, needle, 16);
    assert(colors[lower].spec_dist2(&needle) == colors[higher].spec_dist2(&needle));
}

impl ColorMap {
    /// Every entry is a valid 12-bit color.
    pub open spec fn wf(&self) -> bool {
        forall|i: int| 0 <= i < 16 ==> (#[trigger] self@[i]).wf()
    }

    /// The preset palette.
    pub fn default() -> (m: ColorMap)
        ensures
            m@ == default_colors(),
            m.wf(),
    {
        let m = ColorMap {
            colors: [
                AmigaRgb::new(0, 0, 0),
                AmigaRgb::new(8, 0, 0),
                AmigaRgb::new(0, 8, 0),
                AmigaRgb::new(8, 8, 0),
                AmigaRgb::new(0, 0, 8),
                AmigaRgb::new(8, 0, 8),
                AmigaRgb::new(0, 8, 8),
                AmigaRgb::new(12, 12, 12),
                AmigaRgb::new(8, 8, 8),
                AmigaRgb::new(15, 0, 0),
                AmigaRgb::new(0, 15, 0),
                AmigaRgb::new(15, 15, 0),
                AmigaRgb::new(0, 0, 15),
                AmigaRgb::new(15, 0, 15),
                AmigaRgb::new(0, 15, 15),
                AmigaRgb::new(15, 15, 15),
            ],
        };
        assert(m@ =~= default_colors());
        m
    }

    /// A palette whose sixteen entries are all black.
    pub fn empty() -> (m: ColorMap)
        ensures
            m@ == empty_colors(),
            m.wf(),
    {
        let m = ColorMap { colors: [AmigaRgb::new(0, 0, 0); 16] };
        assert(m@ =~= empty_colors());
        m
    }

    /// The entry at index `i`.
    pub fn get(&self, i: u8) -> (c: AmigaRgb)
        requires
            i < 16,
        ensures
            c == self@[i as int],
    {
        self.colors[i as usize]
    }

    /// Overwrites the entry at index `i`.
    pub fn set(&mut self, i: u8, c: AmigaRgb)
        requires
            i < 16,
        ensures
            final(self)@ == old(self)@.update(i as int, c),
            old(self).wf() && c.wf() ==> final(self).wf(),
    {
        let ghost before = self@;
        self.colors[i as usize] = c;
        assert forall|j: int| 0 <= j < 16 && j != i implies self@[j] == before[j] by {}
    }

    /// Index of the entry closest to `needle` by squared distance; among
    /// equally close entries the lowest index wins.
    pub fn index_of_similar(&self, needle: AmigaRgb) -> (idx: u8)
        requires
            self.wf(),
            needle.wf(),
        ensures
            idx < 16,
            idx == nearest_index(self@, needle),
            forall|j: int|
                0 <= j < 16 ==> self@[idx as int].spec_dist2(&needle)
                    <= #[trigger] self@[j].spec_dist2(&needle),
            forall|j: int|
                0 <= j < idx ==> self@[idx as int].spec_dist2(&needle)
                    < #[trigger] self@[j].spec_dist2(&needle),
    {
        let mut index: u8 = 0;
        assert(self@[0].wf());
        let mut min_dist2: u32 = self.colors[0].euclidean_dist2(&needle);
        let mut i: usize = 1;
        while i < 16
            invariant
                1 <= i <= 16,
                self.wf(),
                needle.wf(),
                index < i,
                index == nearest_upto(self@, needle, i as int),
                min_dist2 == self@[index as int].spec_dist2(&needle),
            decreases 16 - i,
        {
            proof {
                lemma_nearest_upto(self@, needle, i as int);
            }
            assert(self@[i as int].wf());
            let dist2 = self.colors[i].euclidean_dist2(&needle);
            if dist2 < min_dist2 {
                min_dist2 = dist2;
                index = i as u8;
            }
            i = i + 1;
        }
        proof {
            lemma_nearest_upto(self@, needle, 16);
        }
        index
    }
}

} // verus!
