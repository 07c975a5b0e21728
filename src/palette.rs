use vstd::prelude::*;

use crate::color::{color_difference, diff_sum, Color};

verus! {

/// Number of preset colours in the fixed palette.
pub const PRESET_COUNT: usize = 20;

/// Number of custom colour slots that follow the presets.
pub const CUSTOM_SLOTS: usize = 10;

/// The fixed palette, in on-screen order: two rows of ten cells.
pub open spec fn preset_color(i: int) -> Color {
    if i == 0 {
        Color { r: 0, g: 0, b: 0 }
    } else if i == 1 {
        Color { r: 127, g: 127, b: 127 }
    } else if i == 2 {
        Color { r: 136, g: 0, b: 21 }
    } else if i == 3 {
        Color { r: 237, g: 28, b: 36 }
    } else if i == 4 {
        Color { r: 255, g: 127, b: 39 }
    } else if i == 5 {
        Color { r: 255, g: 242, b: 0 }
    } else if i == 6 {
        Color { r: 34, g: 177, b: 76 }
    } else if i == 7 {
        Color { r: 0, g: 162, b: 232 }
    } else if i == 8 {
        Color { r: 63, g: 72, b: 204 }
    } else if i == 9 {
        Color { r: 163, g: 73, b: 164 }
    } else if i == 10 {
        Color { r: 255, g: 255, b: 255 }
    } else if i == 11 {
        Color { r: 195, g: 195, b: 195 }
    } else if i == 12 {
        Color { r: 185, g: 122, b: 87 }
    } else if i == 13 {
        Color { r: 255, g: 174, b: 201 }
    } else if i == 14 {
        Color { r: 255, g: 201, b: 14 }
    } else if i == 15 {
        Color { r: 239, g: 228, b: 176 }
    } else if i == 16 {
        Color { r: 181, g: 230, b: 29 }
    } else if i == 17 {
        Color { r: 153, g: 217, b: 234 }
    } else if i == 18 {
        Color { r: 112, g: 146, b: 190 }
    } else {
        Color { r: 200, g: 191, b: 231 }
    }
}

pub open spec fn presets() -> Seq<Color> {
    Seq::new(PRESET_COUNT as nat, |i: int| preset_color(i))
}

/// The preset colour at `index`.
pub fn preset(index: usize) -> (r: Color)
    requires
        index < PRESET_COUNT,
    ensures
        r == preset_color(index as int),
{
    match index {
        0 => Color { r: 0, g: 0, b: 0 },
        1 => Color { r: 127, g: 127, b: 127 },
        2 => Color { r: 136, g: 0, b: 21 },
        3 => Color { r: 237, g: 28, b: 36 },
        4 => Color { r: 255, g: 127, b: 39 },
        5 => Color { r: 255, g: 242, b: 0 },
        6 => Color { r: 34, g: 177, b: 76 },
        7 => Color { r: 0, g: 162, b: 232 },
        8 => Color { r: 63, g: 72, b: 204 },
        9 => Color { r: 163, g: 73, b: 164 },
        10 => Color { r: 255, g: 255, b: 255 },
        11 => Color { r: 195, g: 195, b: 195 },
        12 => Color { r: 185, g: 122, b: 87 },
        13 => Color { r: 255, g: 174, b: 201 },
        14 => Color { r: 255, g: 201, b: 14 },
        15 => Color { r: 239, g: 228, b: 176 },
        16 => Color { r: 181, g: 230, b: 29 },
        17 => Color { r: 153, g: 217, b: 234 },
        18 => Color { r: 112, g: 146, b: 190 },
        _ => Color { r: 200, g: 191, b: 231 },
    }
}

/// `i` is the first position of `s` whose colour is nearest to `c`.
pub open spec fn is_first_nearest(s: Seq<Color>, c: Color, i: int) -> bool {
    &&& 0 <= i < s.len()
    &&& forall|j: int| 0 <= j < s.len() ==> diff_sum(c, s[i]) <= diff_sum(c, #[trigger] s[j])
    &&& forall|j: int| 0 <= j < i ==> diff_sum(c, s[i]) < diff_sum(c, #[trigger] s[j])
}

/// The first nearest position is unique.
pub proof fn lemma_first_nearest_unique(s: Seq<Color>, c: Color, i: int, k: int)
    requires
        is_first_nearest(s, c, i),
        is_first_nearest(s, c, k),
    ensures
        i == k,
{
    if i < k {
        assert(diff_sum(c, s[k]) < diff_sum(c, s[i]));
    } else if k < i {
        assert(diff_sum(c, s[i]) < diff_sum(c, s[k]));
    }
}

/// A non-empty sequence has a first nearest position.
pub proof fn lemma_first_nearest_exists(s: Seq<Color>, c: Color) -> (i: int)
    requires
        s.len() > 0,
    ensures
        is_first_nearest(s, c, i),
        i == first_nearest(s, c),
    decreases s.len(),
{
    let i = if s.len() == 1 {
        0
    } else {
        let k = lemma_first_nearest_exists(s.drop_last(), c);
        assert(forall|j: int| 0 <= j < s.len() - 1 ==> s.drop_last()[j] == s[j]);
        if diff_sum(c, s.last()) < diff_sum(c, s[k]) {
            (s.len() - 1) as int
        } else {
            k
        }
    };
    assert(is_first_nearest(s, c, i));
    lemma_first_nearest_unique(s, c, i, first_nearest(s, c));
    i
}

/// The palette position nearest to `c` (first on ties).
pub open spec fn first_nearest(s: Seq<Color>, c: Color) -> int {
    choose|i: int| is_first_nearest(s, c, i)
}

/// Scans `s` from the front, keeping the first strictly better candidate.
pub fn nearest_in(s: &Vec<Color>, c: Color) -> (r: (usize, u32))
    requires
        s@.len() > 0,
    ensures
        is_first_nearest(s@, c, r.0 as int),
        r.0 as int == first_nearest(s@, c),
        r.1 == diff_sum(c, s@[r.0 as int]),
{
    let mut best: usize = 0;
    let mut best_diff: u32 = color_difference(c, s[0]);
    let mut i: usize = 1;
    while i < s.len()
        invariant
            1 <= i <= s@.len(),
            best < i,
            best_diff == diff_sum(c, s@[best as int]),
            forall|j: int| 0 <= j < i ==> diff_sum(c, s@[best as int]) <= diff_sum(c, #[trigger] s@[j]),
            forall|j: int| 0 <= j < best ==> diff_sum(c, s@[best as int]) < diff_sum(c, #[trigger] s@[j]),
        decreases s@.len() - i,
    {
        let d = color_difference(c, s[i]);
        if d < best_diff {
            best = i;
            best_diff = d;
        }
        i = i + 1;
    }
    proof {
        assert(is_first_nearest(s@, c, best as int));
        lemma_first_nearest_unique(s@, c, best as int, first_nearest(s@, c));
    }
    (best, best_diff)
}

/// The preset palette as a vector.
pub fn preset_palette() -> (r: Vec<Color>)
    ensures
        r@ == presets(),
{
    let mut all: Vec<Color> = Vec::new();
    let mut i: usize = 0;
    while i < PRESET_COUNT
        invariant
            i <= PRESET_COUNT,
            all@ == presets().take(i as int),
        decreases PRESET_COUNT - i,
    {
        all.push(preset(i));
        proof {
            assert(presets().take(i + 1) =~= presets().take(i as int).push(preset_color(i as int)));
        }
        i = i + 1;
    }
    proof {
        assert(presets().take(PRESET_COUNT as int) =~= presets());
    }
    all
}

/// The presets followed by the given custom colours, indexed 0..19 then 20...
pub open spec fn full_palette(custom: Seq<Color>) -> Seq<Color> {
    presets() + custom
}

/// Nearest palette entry to `c` among the presets and then `custom` (whose
/// indices start at 20), ties going to the earlier entry; returns the index and
/// the channel-difference sum to it.
pub fn best_match(c: Color, custom: &Vec<Color>) -> (r: (usize, u32))
    requires
        custom@.len() <= usize::MAX - PRESET_COUNT,
    ensures
        r.0 as int == first_nearest(full_palette(custom@), c),
        is_first_nearest(full_palette(custom@), c, r.0 as int),
        r.1 == diff_sum(c, full_palette(custom@)[r.0 as int]),
{
    let mut all = preset_palette();
    let mut k: usize = 0;
    while k < custom.len()
        invariant
            k <= custom@.len(),
            all@ == presets() + custom@.take(k as int),
        decreases custom@.len() - k,
    {
        all.push(custom[k]);
        proof {
            assert(presets() + custom@.take(k + 1) =~= (presets() + custom@.take(k as int)).push(custom@[k as int]));
        }
        k = k + 1;
    }
    proof {
        assert(all@ =~= full_palette(custom@));
    }
    nearest_in(&all, c)
}

/// The index of the preset nearest to `c` (the first, on ties).
pub open spec fn nearest_preset(c: Color) -> int {
    first_nearest(presets(), c)
}

} // verus!
