use vstd::prelude::*;

verus! {

/// The two fill colours of a piece and the page background for one level.
#[derive(Copy, Clone, Debug)]
pub struct Colours {
    pub colour_1: &'static str,
    pub colour_2: &'static str,
    pub colour_bg: &'static str,
}

/// Number of entries in the palette; levels cycle through it.
pub const PALETTE_LEN: i32 = 10;

/// Position in the palette of the colours for `level`: levels are one-indexed,
/// so level 1 takes the first entry, level 10 the last, level 11 the first again.
pub open spec fn palette_index(level: int) -> int {
    (level - 1) % (PALETTE_LEN as int)
}

/// The palette entry at position `i`, as (primary, secondary, background).
pub open spec fn palette_entry(i: int) -> (Seq<char>, Seq<char>, Seq<char>) {
    if i == 0 {
        ("#00F"@, "#009"@, "#00F"@)
    } else if i == 1 {
        ("#F00"@, "#900"@, "#F00"@)
    } else if i == 2 {
        ("#0F0"@, "#090"@, "#0F0"@)
    } else if i == 3 {
        ("#F0F"@, "#909"@, "#F0F"@)
    } else if i == 4 {
        ("#FF0"@, "#990"@, "#FF0"@)
    } else if i == 5 {
        ("#0FF"@, "#099"@, "#0FF"@)
    } else if i == 6 {
        ("#009"@, "#003"@, "#009"@)
    } else if i == 7 {
        ("#900"@, "#300"@, "#900"@)
    } else if i == 8 {
        ("#090"@, "#030"@, "#090"@)
    } else {
        ("#999"@, "#333"@, "#999"@)
    }
}

/// Whether `c` holds exactly the palette entry for `level`.
pub open spec fn is_level_colours(c: Colours, level: int) -> bool {
    let e = palette_entry(palette_index(level));
    &&& c.colour_1@ == e.0
    &&& c.colour_2@ == e.1
    &&& c.colour_bg@ == e.2
}

fn entry(c1: &'static str, c2: &'static str, bg: &'static str) -> (r: Colours)
    ensures
        r.colour_1 == c1,
        r.colour_2 == c2,
        r.colour_bg == bg,
{
    Colours { colour_1: c1, colour_2: c2, colour_bg: bg }
}

/// The colours used for pieces spawned at `level`.
pub fn colours_for_level(level: i32) -> (r: Colours)
    requires
        level >= 1,
    ensures
        is_level_colours(r, level as int),
{
    let i: i32 = (level - 1) % PALETTE_LEN;
    if i == 0 {
        entry("#00F", "#009", "#00F")
    } else if i == 1 {
        entry("#F00", "#900", "#F00")
    } else if i == 2 {
        entry("#0F0", "#090", "#0F0")
    } else if i == 3 {
        entry("#F0F", "#909", "#F0F")
    } else if i == 4 {
        entry("#FF0", "#990", "#FF0")
    } else if i == 5 {
        entry("#0FF", "#099", "#0FF")
    } else if i == 6 {
        entry("#009", "#003", "#009")
    } else if i == 7 {
        entry("#900", "#300", "#900")
    } else if i == 8 {
        entry("#090", "#030", "#090")
    } else {
        entry("#999", "#333", "#999")
    }
}

} // verus!
