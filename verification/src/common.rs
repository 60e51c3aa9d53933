//! Shared utilities: string interning, diagnostic formatting, and the
//! one-token-lookahead cursor abstraction used by the parser.

use vstd::prelude::*;
use vstd::string::StrSliceExecFns;
use vstd::string::StringExecFns;

verus! {

/// An interned string: the character count and the slice itself, borrowed
/// from the source that first supplied it.
pub struct InternStr<'a> {
    pub len: usize,
    pub text: &'a str,
}

/// Whether some entry of `entries` holds the text `t`.
pub open spec fn holds_text(entries: Seq<InternStr>, t: Seq<char>) -> bool {
    exists|k: int| 0 <= k < entries.len() && entries[k].text@ == t
}

/// Character-by-character string equality.
fn eq_str(a: &str, b: &str) -> (r: bool)
    ensures
        r == (a@ == b@),
{
    let la: usize = a.unicode_len();
    let lb: usize = b.unicode_len();
    if la != lb {
        return false;
    }
    let mut i: usize = 0;
    while i < la
        invariant
            i <= la,
            la == a@.len(),
            la == b@.len(),
            forall|k: int| 0 <= k < i ==> a@[k] == b@[k],
        decreases la - i,
    {
        if a.get_char(i) != b.get_char(i) {
            return false;
        }
        i = i + 1;
    }
    proof {
        assert(a@ =~= b@);
    }
    true
}

/// Returns the intern-table entry for `s`, adding one if no entry holds the
/// same text yet. The table never gains two entries with the same text, and
/// a repeated request hands back the slice already stored.
pub fn str_intern_range<'a>(interns: &mut Vec<InternStr<'a>>, s: &'a str) -> (r: &'a str)
    ensures
        r@ == s@,
        holds_text(final(interns)@, s@),
        holds_text(old(interns)@, s@) ==> final(interns)@ == old(interns)@,
        !holds_text(old(interns)@, s@) ==> {
            &&& final(interns)@.len() == old(interns)@.len() + 1
            &&& forall|k: int| 0 <= k < old(interns)@.len() ==> final(interns)@[k] == old(interns)@[k]
            &&& final(interns)@.last().text@ == s@
            &&& final(interns)@.last().len == s@.len()
        },
{
    let len: usize = s.unicode_len();
    let n: usize = interns.len();
    let mut i: usize = 0;
    while i < n
        invariant
            i <= n,
            n == interns@.len(),
            forall|k: int| 0 <= k < i ==> interns@[k].text@ != s@,
        decreases n - i,
    {
        if eq_str(interns[i].text, s) {
            return interns[i].text;
        }
        i = i + 1;
    }
    let intern = InternStr { len, text: s };
    interns.push(intern);
    proof {
        assert(interns@[interns@.len() - 1].text@ == s@);
    }
    s
}

/// Relies on `String::push`: appends the character to the end of the string.
#[verifier::external_body]
fn push_char(s: &mut String, c: char)
    ensures
        final(s)@ == old(s)@.push(c),
{
    s.push(c)
}

/// Builds the diagnostic text for an unrecoverable error, naming the
/// character that caused it when one is known. The caller decides how to
/// report it; the library itself never aborts.
pub fn fatal_error(err: &str, c: Option<&char>) -> (msg: String)
    ensures
        match c {
            Some(ch) => msg@ == "Fatal error: "@ + err@ + " caused by char: "@ + seq![*ch],
            None => msg@ == "Fatal error: "@ + err@,
        },
{
    let mut msg = String::new();
    msg.append("Fatal error: ");
    msg.append(err);
    match c {
        Some(ch) => {
            msg.append(" caused by char: ");
            push_char(&mut msg, *ch);
            proof {
                assert(msg@ =~= "Fatal error: "@ + err@ + " caused by char: "@ + seq![*ch]);
            }
        },
        None => {
            proof {
                assert(msg@ =~= "Fatal error: "@ + err@);
            }
        },
    }
    msg
}

/// A cursor that yields its items in order and lets the holder look at the
/// next item without consuming it. `remaining` is the sequence of items not
/// yet consumed.
pub trait PeekableIterator {
    type Item;

    /// The items not yet consumed, in the order they will be yielded.
    spec fn remaining(&self) -> Seq<Self::Item>;

    /// The next item, without consuming it; `None` at the end.
    fn peek(&self) -> (r: Option<&Self::Item>)
        ensures
            match r {
                Some(t) => self.remaining().len() > 0 && *t == self.remaining()[0],
                None => self.remaining().len() == 0,
            },
    ;

    /// Consumes and yields the next item; `None` at the end.
    fn next(&mut self) -> (r: Option<Self::Item>)
        ensures
            match r {
                Some(t) => old(self).remaining().len() > 0 && t == old(self).remaining()[0]
                    && final(self).remaining() == old(self).remaining().drop_first(),
                None => old(self).remaining().len() == 0
                    && final(self).remaining() == old(self).remaining(),
            },
    ;
}

} // verus!
