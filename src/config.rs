//! What a compiled control line asks of the rest of the applet.

use vstd::prelude::*;
use crate::display_format::{blocks_view, DisplayBlock, DisplayFormat};
use crate::scroller::{fresh_view, Scroller};

verus! {

/// Window width and dwell ticks of the scroller behind `[info]`.
pub const INFO_WINDOW: u8 = 10;
pub const INFO_DWELL: u8 = 6;

pub open spec fn has_metadata(bs: Seq<DisplayBlock>) -> bool {
    exists|i: int| 0 <= i < bs.len() && bs[i] is Metadata
}

pub open spec fn has_info(bs: Seq<DisplayBlock>) -> bool {
    exists|i: int| 0 <= i < bs.len() && bs[i] is PlayerInfo
}

/// Window width and dwell ticks of the last `[metadata]` block; none when
/// there is no such block.
pub open spec fn meta_settings(bs: Seq<DisplayBlock>) -> (u8, u8)
    decreases bs.len(),
{
    if bs.len() == 0 {
        (0, 0)
    } else if let DisplayBlock::Metadata(w, d) = bs.last() {
        (w, d)
    } else {
        meta_settings(bs.drop_last())
    }
}

/// Whether the control line shows the song's metadata at all.
pub fn has_metadata_block(format: &Vec<DisplayFormat>) -> (r: bool)
    ensures
        r == has_metadata(blocks_view(format@)),
{
    for i in 0..format.len()
        invariant
            forall|k: int| 0 <= k < i ==> !(blocks_view(format@)[k] is Metadata),
    {
        if let DisplayFormat::Metadata(_, _) = format[i] {
            assert(blocks_view(format@)[i as int] is Metadata);
            return true;
        }
    }
    false
}

/// The scrollers of the player name and of the metadata: the first only
/// when there is an `[info]` block, the second as the last `[metadata]`
/// block says; a scroller with no window is disabled.
pub fn init_scrollers(format: &Vec<DisplayFormat>) -> (r: (Scroller, Scroller))
    ensures
        r.0@ == if has_info(blocks_view(format@)) {
            fresh_view(INFO_WINDOW as nat, INFO_DWELL as nat)
        } else {
            fresh_view(0, 0)
        },
        r.1@ == fresh_view(
            meta_settings(blocks_view(format@)).0 as nat,
            meta_settings(blocks_view(format@)).1 as nat,
        ),
        r.0@.wf() && r.1@.wf(),
{
    let ghost bs = blocks_view(format@);
    let mut info = Scroller::new(0, 0);
    let mut meta = Scroller::new(0, 0);
    for i in 0..format.len()
        invariant
            bs == blocks_view(format@),
            info@ == if has_info(bs.subrange(0, i as int)) {
                fresh_view(INFO_WINDOW as nat, INFO_DWELL as nat)
            } else {
                fresh_view(0, 0)
            },
            meta@ == fresh_view(
                meta_settings(bs.subrange(0, i as int)).0 as nat,
                meta_settings(bs.subrange(0, i as int)).1 as nat,
            ),
            info@.wf() && meta@.wf(),
    {
        let ghost pre = bs.subrange(0, i as int);
        let ghost now = bs.subrange(0, i + 1);
        assert(now.drop_last() == pre);
        assert(now.last() == format@[i as int]@);
        match format[i] {
            DisplayFormat::PlayerInfo(_, _) => {
                info = Scroller::new(INFO_WINDOW, INFO_DWELL);
                assert(now[i as int] is PlayerInfo);
            },
            DisplayFormat::Metadata(w, d) => {
                meta = Scroller::new(w, d);
            },
            _ => {},
        }
        assert(has_info(now) == (has_info(pre) || now.last() is PlayerInfo)) by {
            if has_info(now) {
                let k = choose|k: int| 0 <= k < now.len() && now[k] is PlayerInfo;
                if k < pre.len() {
                    assert(pre[k] == now[k]);
                }
            }
            if has_info(pre) {
                let k = choose|k: int| 0 <= k < pre.len() && pre[k] is PlayerInfo;
                assert(pre[k] == now[k]);
            }
        }
    }
    assert(bs.subrange(0, bs.len() as int) == bs);
    (info, meta)
}

} // verus!
