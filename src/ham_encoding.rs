//! The per-pixel encoding decision: which of the four HAM6 operations comes
//! closest to a target color, given the previously displayed color.
use vstd::prelude::*;

use crate::color::AmigaRgb;
use crate::color_map::{nearest_index, ColorMap};
use crate::ham::Ham6Operation;

verus! {

/// One candidate encoding of a pixel: the operation, its 4-bit payload, the
/// color it displays and that color's squared distance to the target.
#[derive(Debug, Clone, Copy)]
pub struct Computation {
    pub operation: Ham6Operation,
    pub payload: u8,
    pub color: AmigaRgb,
    pub distance: u32,
}

pub open spec fn candidate(
    operation: Ham6Operation,
    payload: u8,
    color: AmigaRgb,
    target: AmigaRgb,
) -> Computation {
    Computation { operation, payload, color, distance: color.spec_dist2(&target) as u32 }
}

/// The first of four candidates with the least distance: a later one wins
/// only when it is strictly closer than every earlier one.
pub open spec fn first_minimal(a: Computation, b: Computation, c: Computation, d: Computation) -> Computation {
    let ab = if b.distance < a.distance {
        b
    } else {
        a
    };
    let abc = if c.distance < ab.distance {
        c
    } else {
        ab
    };
    if d.distance < abc.distance {
        d
    } else {
        abc
    }
}

/// The encoding chosen for `target` after `previous`, among, in this order:
/// the nearest palette entry, and `previous` with its red, green or blue
/// channel replaced by the target's.
pub open spec fn spec_encode(colors: Seq<AmigaRgb>, previous: AmigaRgb, target: AmigaRgb) -> Computation {
    let idx = nearest_index(colors, target);
    first_minimal(
        candidate(Ham6Operation::UsePalette, idx as u8, colors[idx], target),
        candidate(
            Ham6Operation::ModifyRed,
            target.red,
            AmigaRgb { red: target.red, green: previous.green, blue: previous.blue },
            target,
        ),
        candidate(
            Ham6Operation::ModifyGreen,
            target.green,
            AmigaRgb { red: previous.red, green: target.green, blue: previous.blue },
            target,
        ),
        candidate(
            Ham6Operation::ModifyBlue,
            target.blue,
            AmigaRgb { red: previous.red, green: previous.green, blue: target.blue },
            target,
        ),
    )
}

/// The chosen encoding carries a 4-bit payload and displays a valid color.
pub proof fn lemma_encode_wf(colors: Seq<AmigaRgb>, previous: AmigaRgb, target: AmigaRgb)
    requires
        colors.len() == 16,
        forall|i: int| 0 <= i < 16 ==> (#[trigger] colors[i]).wf(),
        previous.wf(),
        target.wf(),
    ensures
        spec_encode(colors, previous, target).payload <= 15,
        spec_encode(colors, previous, target).color.wf(),
{
    crate::color_map::lemma_nearest_upto(colors, target, 16);
    assert(colors[nearest_index(colors, target)].wf());
}

/// Chooses how to encode `target_color` when `previous_color` is on display.
pub fn encode(color_map: &ColorMap, previous_color: AmigaRgb, target_color: AmigaRgb) -> (c: Computation)
    requires
        color_map.wf(),
        previous_color.wf(),
        target_color.wf(),
    ensures
        c == spec_encode(color_map@, previous_color, target_color),
        c.payload <= 15,
        c.color.wf(),
{
    proof {
        lemma_encode_wf(color_map@, previous_color, target_color);
    }
    let color_index = color_map.index_of_similar(target_color);
    let index_color = color_map.get(color_index);
    assert(color_map@[color_index as int].wf());
    let red_modified = AmigaRgb::new(target_color.r(), previous_color.g(), previous_color.b());
    let green_modified = AmigaRgb::new(previous_color.r(), target_color.g(), previous_color.b());
    let blue_modified = AmigaRgb::new(previous_color.r(), previous_color.g(), target_color.b());

    let mut best = Computation {
        operation: Ham6Operation::UsePalette,
        payload: color_index,
        color: index_color,
        distance: index_color.euclidean_dist2(&target_color),
    };
    let red = Computation {
        operation: Ham6Operation::ModifyRed,
        payload: red_modified.r(),
        color: red_modified,
        distance: red_modified.euclidean_dist2(&target_color),
    };
    if red.distance < best.distance {
        best = red;
    }
    let green = Computation {
        operation: Ham6Operation::ModifyGreen,
        payload: green_modified.g(),
        color: green_modified,
        distance: green_modified.euclidean_dist2(&target_color),
    };
    if green.distance < best.distance {
        best = green;
    }
    let blue = Computation {
        operation: Ham6Operation::ModifyBlue,
        payload: blue_modified.b(),
        color: blue_modified,
        distance: blue_modified.euclidean_dist2(&target_color),
    };
    if blue.distance < best.distance {
        best = blue;
    }
    best
}

} // verus!
