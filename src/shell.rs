//! Pieces of the viewer shell that carry logic: the application's loading
//! state, and cleaning terminal escape sequences out of error reports.
use vstd::prelude::*;

verus! {

/// What the viewer is doing.
pub enum AppState {
    Ready,
    /// Loading the file at this path.
    Loading(String),
    /// The last load failed with this message.
    Error(String),
}

/// The character that opens a terminal escape sequence.
pub const ESCAPE: char = '\x1B';

/// Whether `c` has Unicode's Alphabetic property.
pub uninterp spec fn is_alpha(c: char) -> bool;

/// Relies on `char::is_alphabetic`: whether the character has Unicode's
/// Alphabetic property, which depends on the character alone.
#[verifier::external_body]
fn alphabetic(c: char) -> (r: bool)
    ensures
        r == is_alpha(c),
{
    c.is_alphabetic()
}

/// Relies on `String::push`: appends one character.
#[verifier::external_body]
fn push_char(s: &mut String, c: char)
    ensures
        final(s)@ == old(s)@.push(c),
{
    s.push(c)
}

/// One step of escape stripping, given whether `c` is alphabetic: the next
/// state (inside an escape sequence or not) and the character to keep, if
/// any. An escape sequence runs from the escape character to the first
/// alphabetic character, both included.
pub open spec fn step_spec(in_escape: bool, c: char, alpha: bool) -> (bool, Option<char>) {
    if in_escape {
        (!alpha, None)
    } else if c == ESCAPE {
        (true, None)
    } else {
        (false, Some(c))
    }
}

/// `s` without its escape sequences, starting inside one when `in_escape`.
pub open spec fn strip_from(s: Seq<char>, in_escape: bool) -> Seq<char>
    decreases s.len(),
{
    if s.len() == 0 {
        Seq::empty()
    } else {
        let (next, kept) = step_spec(in_escape, s[0], is_alpha(s[0]));
        let rest = strip_from(s.subrange(1, s.len() as int), next);
        match kept {
            Some(k) => seq![k] + rest,
            None => rest,
        }
    }
}

/// One step of escape stripping; `alpha` tells whether `c` is alphabetic.
pub fn ansi_step(in_escape: bool, c: char, alpha: bool) -> (r: (bool, Option<char>))
    ensures
        r == step_spec(in_escape, c, alpha),
{
    if in_escape {
        (!alpha, None)
    } else if c == ESCAPE {
        (true, None)
    } else {
        (false, Some(c))
    }
}

/// The input without its terminal escape sequences.
pub fn strip_ansi_codes(input: &str) -> (r: String)
    ensures
        r@ == strip_from(input@, false),
{
    let n = input.unicode_len();
    let mut out = String::new();
    let mut in_escape = false;
    let mut i: usize = 0;
    proof {
        assert(input@.subrange(0, n as int) =~= input@);
        assert(out@ + strip_from(input@, false) =~= strip_from(input@, false));
    }
    while i < n
        invariant
            n == input@.len(),
            i <= n,
            out@ + strip_from(input@.subrange(i as int, n as int), in_escape) == strip_from(input@, false),
        decreases n - i,
    {
        let c = input.get_char(i);
        let alpha = alphabetic(c);
        let (next, kept) = ansi_step(in_escape, c, alpha);
        let ghost rest = input@.subrange(i as int, n as int);
        let ghost before = out@;
        proof {
            assert(rest[0] == c);
            assert(rest.subrange(1, rest.len() as int) =~= input@.subrange(i + 1, n as int));
        }
        if let Some(k) = kept {
            push_char(&mut out, k);
            proof {
                assert(out@ + strip_from(input@.subrange(i + 1, n as int), next) =~= before + strip_from(rest, in_escape));
            }
        }
        in_escape = next;
        i += 1;
    }
    proof {
        assert(input@.subrange(n as int, n as int) =~= Seq::<char>::empty());
        assert(out@ + Seq::<char>::empty() =~= out@);
    }
    out
}

} // verus!
