//! What the console prompts decide once the bytes are in: where an answer
//! ends, and what a yes-or-no answer means.

use vstd::prelude::*;
use crate::text::same_as;
use crate::text::chars_of;

verus! {

/// Whether the byte ends an answer: the stopper, or a line break.
pub open spec fn ends_answer(b: u8, stopper: u8) -> bool {
    b == stopper || b == 10u8
}

/// The position of the first byte of `input` that ends an answer, if there
/// is one.
pub open spec fn answer_end(input: Seq<u8>, stopper: u8) -> Option<int>
    decreases input.len(),
{
    if input.len() == 0 {
        None
    } else if ends_answer(input[0], stopper) {
        Some(0)
    } else {
        match answer_end(input.skip(1), stopper) {
            Some(i) => Some(i + 1),
            None => None,
        }
    }
}

/// The bytes of the answer at the front of `input`: all that comes before
/// the first stopper or line break. `None` where the input ends before
/// either.
pub fn scan_token(input: &Vec<u8>, stopper: u8) -> (r: Option<Vec<u8>>)
    ensures
        match r {
            Some(t) => answer_end(input@, stopper) == Some(t@.len() as int) && t@ == input@.take(
                t@.len() as int,
            ),
            None => answer_end(input@, stopper) is None,
        },
{
    let mut out: Vec<u8> = Vec::new();
    let mut i: usize = 0;
    assert(input@.skip(0) =~= input@);
    while i < input.len()
        invariant
            i <= input.len(),
            out@ == input@.take(i as int),
            answer_end(input@, stopper) == match answer_end(input@.skip(i as int), stopper) {
                Some(k) => Some(k + i),
                None => None,
            },
        decreases input.len() - i,
    {
        let b = input[i];
        proof {
            assert(input@.skip(i as int)[0] == input@[i as int]);
            assert(input@.skip(i as int).skip(1) =~= input@.skip(i as int + 1));
        }
        if b == stopper || b == 10u8 {
            return Some(out);
        }
        out.push(b);
        assert(out@ =~= input@.take(i as int + 1));
        i += 1;
    }
    None
}

/// What a trimmed, lower-case answer to a yes-or-no question means: yes for
/// `y`, `yes` and the empty answer, no for `n` and `no`, and nothing for
/// anything else.
pub open spec fn answer_meaning(a: Seq<char>) -> Option<bool> {
    if a == "y"@ || a == "yes"@ || a == ""@ {
        Some(true)
    } else if a == "n"@ || a == "no"@ {
        Some(false)
    } else {
        None
    }
}

/// What a trimmed, lower-case answer to a yes-or-no question means; `None`
/// where the question has to be asked again.
pub fn read_answer(answer: &str) -> (r: Option<bool>)
    ensures
        r == answer_meaning(answer@),
{
    let a = chars_of(answer);
    if same_as(&a, "y") || same_as(&a, "yes") || same_as(&a, "") {
        Some(true)
    } else if same_as(&a, "n") || same_as(&a, "no") {
        Some(false)
    } else {
        None
    }
}

} // verus!
