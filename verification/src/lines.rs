//! Splitting file contents into lines.
//!
//! A line ends at a bare line feed or at a carriage return followed by a
//! line feed; the terminator is not part of the line, and the final line
//! needs no terminator.
use vstd::prelude::*;
use crate::seq_views;

verus! {

/// `s` with one trailing carriage return removed, as happens to a line
/// that was terminated by a carriage return and a line feed.
pub open spec fn strip_cr(s: Seq<u8>) -> Seq<u8> {
    if s.len() > 0 && s[s.len() - 1] == 13 {
        s.drop_last()
    } else {
        s
    }
}

/// The lines of `text` when `cur` holds the bytes of the current line read
/// so far.
pub open spec fn split_acc(text: Seq<u8>, cur: Seq<u8>) -> Seq<Seq<u8>>
    decreases text.len(),
{
    if text.len() == 0 {
        if cur.len() == 0 {
            Seq::empty()
        } else {
            seq![cur]
        }
    } else if text[0] == 10 {
        seq![strip_cr(cur)] + split_acc(text.drop_first(), Seq::empty())
    } else {
        split_acc(text.drop_first(), cur.push(text[0]))
    }
}

/// The lines of `text`.
pub open spec fn split_lines(text: Seq<u8>) -> Seq<Seq<u8>> {
    split_acc(text, Seq::empty())
}

/// Splits `text` into its lines.
pub fn split_lines_exec(text: &[u8]) -> (r: Vec<Vec<u8>>)
    ensures
        seq_views(r@) == split_lines(text@),
{
    let mut lines: Vec<Vec<u8>> = Vec::new();
    let mut cur: Vec<u8> = Vec::new();
    let mut i: usize = 0;
    proof {
        assert(text@.subrange(0, text@.len() as int) =~= text@);
        assert(seq_views(Seq::<Vec<u8>>::empty()) + split_acc(text@, Seq::empty()) =~= split_acc(
            text@,
            Seq::empty(),
        ));
    }
    while i < text.len()
        invariant
            i <= text@.len(),
            split_lines(text@) == seq_views(lines@) + split_acc(
                text@.subrange(i as int, text@.len() as int),
                cur@,
            ),
        decreases text@.len() - i,
    {
        let ghost rest = text@.subrange(i as int, text@.len() as int);
        proof {
            assert(rest[0] == text@[i as int]);
            assert(rest.drop_first() =~= text@.subrange(i as int + 1, text@.len() as int));
        }
        if text[i] == 10 {
            let ghost cur0 = cur@;
            if cur.len() > 0 && cur[cur.len() - 1] == 13 {
                cur.pop();
            }
            proof {
                assert(cur@ =~= strip_cr(cur0));
                assert(seq_views(lines@.push(cur)) =~= seq_views(lines@).push(strip_cr(cur0)));
                assert(seq_views(lines@) + (seq![strip_cr(cur0)] + split_acc(
                    rest.drop_first(),
                    Seq::empty(),
                )) =~= seq_views(lines@).push(strip_cr(cur0)) + split_acc(
                    rest.drop_first(),
                    Seq::empty(),
                ));
            }
            lines.push(cur);
            cur = Vec::new();
        } else {
            cur.push(text[i]);
        }
        i = i + 1;
    }
    proof {
        assert(text@.subrange(i as int, text@.len() as int).len() == 0);
        if cur@.len() > 0 {
            assert(seq_views(lines@.push(cur)) =~= seq_views(lines@).push(cur@));
        }
    }
    if cur.len() > 0 {
        lines.push(cur);
    }
    proof {
        assert(split_lines(text@) =~= seq_views(lines@));
    }
    lines
}

} // verus!
