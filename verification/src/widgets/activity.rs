use vstd::prelude::*;
use crate::strutil::push_char;
use crate::types::TmuxSessionStatus;

verus! {

broadcast use vstd::string::group_string_axioms;

/// Block characters used for the activity gauge, ordered by fill level.
pub const GAUGE_CHARS: [char; 8] = ['\u{258f}', '\u{258e}', '\u{258d}', '\u{258c}', '\u{258b}', '\u{258a}', '\u{2589}', '\u{2588}'];

/// Width of the gauge bar in characters.
pub const GAUGE_WIDTH: usize = 8;

/// The gauge shown for a session: full for a running one; for an idle one a third filled,
/// then a half block, then blanks, always GAUGE_WIDTH characters.
pub open spec fn gauge_for(status: TmuxSessionStatus) -> Seq<char> {
    match status {
        TmuxSessionStatus::Running => Seq::new(8, |i: int| '\u{2588}'),
        TmuxSessionStatus::Idle => Seq::new(8, |i: int| if i < 2 { '\u{2588}' } else if i == 2 { '\u{258c}' } else { ' ' }),
    }
}

/// The gauge bar of a session's activity.
pub fn gauge_bar(status: TmuxSessionStatus) -> (r: String)
    ensures
        r@ == gauge_for(status),
{
    let mut bar = String::new();
    let full = GAUGE_CHARS[7];
    match status {
        TmuxSessionStatus::Running => {
            let mut i: usize = 0;
            while i < GAUGE_WIDTH
                invariant
                    i <= GAUGE_WIDTH,
                    full == '\u{2588}',
                    bar@ == Seq::new(i as nat, |j: int| '\u{2588}'),
                decreases GAUGE_WIDTH - i,
            {
                push_char(&mut bar, full);
                i += 1;
                assert(bar@ =~= Seq::new(i as nat, |j: int| '\u{2588}'));
            }
        },
        TmuxSessionStatus::Idle => {
            // Partial gauge (3/8 fill)
            let filled = GAUGE_WIDTH / 3;
            let ghost target = gauge_for(status);
            let mut i: usize = 0;
            while i < filled
                invariant
                    filled == 2,
                    i <= filled,
                    full == '\u{2588}',
                    target == gauge_for(TmuxSessionStatus::Idle),
                    bar@ == target.take(i as int),
                decreases filled - i,
            {
                push_char(&mut bar, full);
                i += 1;
                assert(bar@ =~= target.take(i as int));
            }
            push_char(&mut bar, GAUGE_CHARS[3]);
            assert(bar@ =~= target.take(3));
            let remaining = GAUGE_WIDTH - (filled + 1);
            let mut k: usize = 0;
            while k < remaining
                invariant
                    remaining == 5,
                    k <= remaining,
                    target == gauge_for(TmuxSessionStatus::Idle),
                    bar@ == target.take(3 + k),
                decreases remaining - k,
            {
                push_char(&mut bar, ' ');
                k += 1;
                assert(bar@ =~= target.take(3 + k));
            }
            assert(target.take(8) =~= target);
        },
    }
    bar
}

} // verus!
