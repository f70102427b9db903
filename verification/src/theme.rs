use vstd::prelude::*;

verus! {

pub const BG_BASE: u32 = 0x1e1e2e;
pub const BG_SURFACE: u32 = 0x181825;
pub const BG_OVERLAY: u32 = 0x313244;
pub const TEXT_PRIMARY: u32 = 0xcdd6f4;
pub const TEXT_SUBTLE: u32 = 0xa6adc8;
pub const ACCENT: u32 = 0x89b4fa;
pub const GREEN: u32 = 0xa6e3a1;
pub const RED: u32 = 0xf38ba8;
pub const YELLOW: u32 = 0xf9e2af;

/// The color that shows how a branch relates to a remote: gray when no
/// comparison is available, green when synchronized, blue when only ahead,
/// yellow when only behind, red when diverged.
pub open spec fn sync_color_spec(counts: Option<(usize, usize)>) -> u32 {
    match counts {
        None => TEXT_SUBTLE,
        Some((ahead, behind)) => if ahead == 0 && behind == 0 {
            GREEN
        } else if behind == 0 {
            ACCENT
        } else if ahead == 0 {
            YELLOW
        } else {
            RED
        },
    }
}

pub fn sync_color(counts: Option<(usize, usize)>) -> (color: u32)
    ensures
        color == sync_color_spec(counts),
{
    match counts {
        None => TEXT_SUBTLE,
        Some((0, 0)) => GREEN,
        Some((_, 0)) => ACCENT,
        Some((0, _)) => YELLOW,
        Some(_) => RED,
    }
}

/// The palette that commit-graph columns cycle through.
pub open spec fn graph_palette() -> Seq<u32> {
    seq![ACCENT, GREEN, YELLOW, RED]
}

pub fn graph_color(column: usize) -> (color: u32)
    ensures
        color == graph_palette()[(column % 4) as int],
{
    let palette: [u32; 4] = [ACCENT, GREEN, YELLOW, RED];
    palette[column % 4]
}

/// The five synchronization states are shown in five different colors.
pub proof fn sync_states_are_distinguishable(a: Option<(usize, usize)>, b: Option<(usize, usize)>)
    requires
        sync_state(a) != sync_state(b),
    ensures
        sync_color_spec(a) != sync_color_spec(b),
{
}

/// The synchronization state of a comparison: 0 unavailable, 1 synchronized,
/// 2 ahead, 3 behind, 4 diverged.
pub open spec fn sync_state(counts: Option<(usize, usize)>) -> int {
    match counts {
        None => 0,
        Some((ahead, behind)) => if ahead == 0 && behind == 0 {
            1
        } else if behind == 0 {
            2
        } else if ahead == 0 {
            3
        } else {
            4
        },
    }
}

} // verus!
