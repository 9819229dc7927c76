//! What the components of a derivation path mean, position by position.

use crate::path::{component_end, lemma_component_end};
use crate::text::{from_chars, to_chars};
use vstd::prelude::*;
use vstd::slice::slice_subrange;

verus! {

/// The text without the apostrophes at its end.
pub open spec fn strip_ticks(text: Seq<char>) -> Seq<char>
    decreases text.len(),
{
    if text.len() > 0 && text.last() == '\'' {
        strip_ticks(text.drop_last())
    } else {
        text
    }
}

/// The parts of a text between its slashes; a text without a slash is one
/// part.
pub open spec fn split_slashes(text: Seq<char>) -> Seq<Seq<char>>
    decreases text.len(),
    via split_slashes_decreases
{
    if component_end(text) >= text.len() {
        seq![text]
    } else {
        seq![text.take(component_end(text) as int)] + split_slashes(
            text.skip((component_end(text) + 1) as int),
        )
    }
}

#[via_fn]
proof fn split_slashes_decreases(text: Seq<char>) {
    lemma_component_end(text);
}

/// What the part at a position means. The apostrophes at the end of the
/// part do not count.
pub open spec fn spec_explanation(position: nat, part: Seq<char>) -> Seq<char> {
    let name = strip_ticks(part);
    if position == 0 && name == seq!['m'] {
        "m = Master key (root of the tree)"@
    } else if position == 1 && name == seq!['4', '4'] {
        "44' = Purpose (BIP44 - Multi-Account Hierarchy)"@
    } else if position == 2 && name == seq!['0'] {
        "0' = Coin type (0 = Bitcoin, 1 = Testnet)"@
    } else if position == 2 && name == seq!['1'] {
        "1' = Coin type (1 = Bitcoin Testnet)"@
    } else if position == 3 {
        "Account number (0' = first account)"@
    } else if position == 4 && name == seq!['0'] {
        "0 = External chain (receiving addresses)"@
    } else if position == 4 && name == seq!['1'] {
        "1 = Internal chain (change addresses)"@
    } else if position == 5 {
        "Address index (increments for each address)"@
    } else {
        "Unknown component"@
    }
}

/// A part of a path and what it means.
#[derive(Debug)]
pub struct PathNote {
    pub part: String,
    pub explanation: String,
}

fn is_one(name: &[char], c: char) -> (yes: bool)
    ensures
        yes == (name@ == seq![c]),
{
    if name.len() == 1 && name[0] == c {
        assert(name@ =~= seq![c]);
        true
    } else {
        if name.len() == 1 {
            assert(name@[0] != seq![c][0]);
        }
        false
    }
}

/// What the part at a position means.
pub fn explain_component(position: usize, part: &[char]) -> (words: &'static str)
    ensures
        words@ == spec_explanation(position as nat, part@),
{
    let mut end: usize = part.len();
    proof {
        assert(part@.take(end as int) =~= part@);
    }
    while end > 0 && part[end - 1] == '\''
        invariant
            end <= part@.len(),
            strip_ticks(part@) == strip_ticks(part@.take(end as int)),
        decreases end,
    {
        proof {
            assert(part@.take(end as int).drop_last() =~= part@.take(end - 1));
        }
        end -= 1;
    }
    let name = slice_subrange(part, 0, end);
    proof {
        assert(name@ =~= part@.take(end as int));
        assert(strip_ticks(part@) == name@);
    }
    let is_purpose = name.len() == 2 && name[0] == '4' && name[1] == '4';
    proof {
        if is_purpose {
            assert(name@ =~= seq!['4', '4']);
        } else if name@.len() == 2 {
            assert(name@[0] != seq!['4', '4'][0] || name@[1] != seq!['4', '4'][1]);
        }
    }
    if position == 0 && is_one(name, 'm') {
        "m = Master key (root of the tree)"
    } else if position == 1 && is_purpose {
        "44' = Purpose (BIP44 - Multi-Account Hierarchy)"
    } else if position == 2 && is_one(name, '0') {
        "0' = Coin type (0 = Bitcoin, 1 = Testnet)"
    } else if position == 2 && is_one(name, '1') {
        "1' = Coin type (1 = Bitcoin Testnet)"
    } else if position == 3 {
        "Account number (0' = first account)"
    } else if position == 4 && is_one(name, '0') {
        "0 = External chain (receiving addresses)"
    } else if position == 4 && is_one(name, '1') {
        "1 = Internal chain (change addresses)"
    } else if position == 5 {
        "Address index (increments for each address)"
    } else {
        "Unknown component"
    }
}

/// The parts of a path text between its slashes, each with what it means
/// at its position.
pub fn explain_derivation_path(path: &str) -> (notes: Vec<PathNote>)
    ensures
        notes@.len() == split_slashes(path@).len(),
        forall|i: int|
            0 <= i < notes@.len() ==> (#[trigger] notes@[i]).part@ == split_slashes(path@)[i]
                && notes@[i].explanation@ == spec_explanation(i as nat, split_slashes(path@)[i]),
{
    let chars = to_chars(path);
    let total = chars.len();
    let mut notes: Vec<PathNote> = Vec::new();
    let mut start: usize = 0;
    let ghost all = split_slashes(chars@);
    let ghost mut done: Seq<Seq<char>> = Seq::empty();
    proof {
        assert(chars@.skip(0) =~= chars@);
        assert(done + split_slashes(chars@) =~= all);
    }
    loop
        invariant
            start <= total == chars@.len(),
            chars@ == path@,
            all == split_slashes(chars@),
            all == done + split_slashes(chars@.skip(start as int)),
            notes@.len() == done.len(),
            forall|i: int|
                0 <= i < notes@.len() ==> (#[trigger] notes@[i]).part@ == done[i]
                    && notes@[i].explanation@ == spec_explanation(i as nat, done[i]),
        decreases total - start,
    {
        let ghost tail = chars@.skip(start as int);
        let mut end: usize = start;
        proof {
            lemma_component_end(tail);
        }
        while end < total && chars[end] != '/'
            invariant
                start <= end <= total == chars@.len(),
                tail == chars@.skip(start as int),
                component_end(tail) == (end - start) + component_end(chars@.skip(end as int)),
            decreases total - end,
        {
            proof {
                assert(chars@.skip(end as int)[0] == chars@[end as int]);
                assert(chars@.skip(end as int).skip(1) =~= chars@.skip(end + 1));
            }
            end += 1;
        }
        proof {
            if end < total {
                assert(chars@.skip(end as int)[0] == chars@[end as int]);
            }
            assert(component_end(chars@.skip(end as int)) == 0);
        }
        let piece = slice_subrange(chars.as_slice(), start, end);
        let ghost part = tail.take((end - start) as int);
        proof {
            assert(piece@ =~= part);
        }
        let position = notes.len();
        let words = explain_component(position, piece);
        let note = PathNote { part: from_chars(piece), explanation: words.to_owned() };
        let ghost old_notes = notes@;
        notes.push(note);
        proof {
            assert forall|i: int| 0 <= i < notes@.len() implies (#[trigger] notes@[i]).part@
                == done.push(part)[i] && notes@[i].explanation@ == spec_explanation(
                i as nat,
                done.push(part)[i],
            ) by {
                if i < old_notes.len() {
                    assert(notes@[i] == old_notes[i]);
                }
            }
        }
        if end >= total {
            proof {
                assert(tail.take((end - start) as int) =~= tail);
                assert(done + seq![tail] =~= done.push(part));
            }
            return notes;
        }
        proof {
            assert(tail.skip(end - start + 1) =~= chars@.skip(end + 1));
            assert(done + (seq![part] + split_slashes(chars@.skip(end + 1))) =~= done.push(part)
                + split_slashes(chars@.skip(end + 1)));
            done = done.push(part);
        }
        start = end + 1;
    }
}

} // verus!
