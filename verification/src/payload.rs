//! Structured payloads and their transport-safe text form.
//!
//! A payload is a tagged variant value (null / truth value / integer / text /
//! sequence / mapping). [`PayloadValue::render`] lays it out as JSON-shaped
//! text whose exact character sequence is pinned down by [`rendered`], and
//! [`preview`] bounds a text to a configured number of characters.
use vstd::prelude::*;
use vstd::string::StrSliceExecFns;
use vstd::string::StringExecFns;

verus! {

/// Relies on `String::push` of std: appends exactly the given character.
#[verifier::external_body]
pub(crate) fn push_char(out: &mut String, c: char)
    ensures
        final(out)@ == old(out)@ + seq![c],
{
    out.push(c);
}

/// How one character appears inside a rendered text literal: quote,
/// backslash, newline, carriage return and tab take a two-character escape;
/// every other character stands for itself.
pub open spec fn escaped_char(c: char) -> Seq<char> {
    if c == '"' {
        seq!['\\', '"']
    } else if c == '\\' {
        seq!['\\', '\\']
    } else if c == '\n' {
        seq!['\\', 'n']
    } else if c == '\r' {
        seq!['\\', 'r']
    } else if c == '\t' {
        seq!['\\', 't']
    } else {
        seq![c]
    }
}

/// A character sequence with every character escaped.
pub open spec fn escaped(s: Seq<char>) -> Seq<char>
    decreases s.len(),
{
    if s.len() == 0 {
        Seq::empty()
    } else {
        escaped(s.drop_last()) + escaped_char(s.last())
    }
}

proof fn lemma_escaped_snoc(s: Seq<char>, i: int)
    requires
        0 <= i < s.len(),
    ensures
        escaped(s.subrange(0, i + 1)) == escaped(s.subrange(0, i)) + escaped_char(s[i]),
{
    assert(s.subrange(0, i + 1).drop_last() =~= s.subrange(0, i));
    assert(s.subrange(0, i + 1).last() == s[i]);
}

/// Append the escaped form of `s` to `out`.
pub(crate) fn append_escaped(out: &mut String, s: &str)
    ensures
        final(out)@ == old(out)@ + escaped(s@),
{
    let n = s.unicode_len();
    let mut i: usize = 0;
    while i < n
        invariant
            n == s@.len(),
            i <= n,
            out@ == old(out)@ + escaped(s@.subrange(0, i as int)),
        decreases n - i,
    {
        let c = s.get_char(i);
        if c == '"' {
            push_char(out, '\\');
            push_char(out, '"');
        } else if c == '\\' {
            push_char(out, '\\');
            push_char(out, '\\');
        } else if c == '\n' {
            push_char(out, '\\');
            push_char(out, 'n');
        } else if c == '\r' {
            push_char(out, '\\');
            push_char(out, 'r');
        } else if c == '\t' {
            push_char(out, '\\');
            push_char(out, 't');
        } else {
            push_char(out, c);
        }
        proof {
            lemma_escaped_snoc(s@, i as int);
            assert(out@ =~= old(out)@ + escaped(s@.subrange(0, i + 1)));
        }
        i = i + 1;
    }
    proof {
        assert(s@.subrange(0, n as int) =~= s@);
    }
}

/// The decimal digit for a value below ten.
pub open spec fn dec_digit(n: int) -> char {
    if n == 0 {
        '0'
    } else if n == 1 {
        '1'
    } else if n == 2 {
        '2'
    } else if n == 3 {
        '3'
    } else if n == 4 {
        '4'
    } else if n == 5 {
        '5'
    } else if n == 6 {
        '6'
    } else if n == 7 {
        '7'
    } else if n == 8 {
        '8'
    } else {
        '9'
    }
}

/// The decimal form of a nonnegative integer, most significant digit first.
pub open spec fn dec_seq(n: int) -> Seq<char>
    decreases n,
{
    if n < 10 {
        seq![dec_digit(n)]
    } else {
        dec_seq(n / 10).push(dec_digit(n % 10))
    }
}

/// The decimal form of an integer, with a leading minus sign when negative.
pub open spec fn int_seq(n: int) -> Seq<char> {
    if n >= 0 {
        dec_seq(n)
    } else {
        seq!['-'] + dec_seq(-n)
    }
}

fn push_digit(out: &mut String, d: u64)
    requires
        d < 10,
    ensures
        final(out)@ == old(out)@ + seq![dec_digit(d as int)],
{
    if d == 0 {
        push_char(out, '0');
    } else if d == 1 {
        push_char(out, '1');
    } else if d == 2 {
        push_char(out, '2');
    } else if d == 3 {
        push_char(out, '3');
    } else if d == 4 {
        push_char(out, '4');
    } else if d == 5 {
        push_char(out, '5');
    } else if d == 6 {
        push_char(out, '6');
    } else if d == 7 {
        push_char(out, '7');
    } else if d == 8 {
        push_char(out, '8');
    } else {
        push_char(out, '9');
    }
}

/// Append the decimal form of `n` to `out`.
pub(crate) fn append_dec_u64(out: &mut String, n: u64)
    ensures
        final(out)@ == old(out)@ + dec_seq(n as int),
    decreases n,
{
    if n < 10 {
        push_digit(out, n);
    } else {
        append_dec_u64(out, n / 10);
        push_digit(out, n % 10);
        proof {
            assert(old(out)@ + dec_seq((n / 10) as int) + seq![dec_digit((n % 10) as int)]
                =~= old(out)@ + dec_seq(n as int));
        }
    }
}

/// Append the decimal form of `n`, sign included, to `out`.
pub(crate) fn append_dec_i64(out: &mut String, n: i64)
    ensures
        final(out)@ == old(out)@ + int_seq(n as int),
{
    if n < 0 {
        push_char(out, '-');
        let m: u64 = ((-(n + 1)) as u64) + 1;
        assert(m as int == -(n as int));
        append_dec_u64(out, m);
        proof {
            assert(old(out)@ + seq!['-'] + dec_seq(m as int) =~= old(out)@ + int_seq(n as int));
        }
    } else {
        append_dec_u64(out, n as u64);
    }
}

/// The first `bound` characters of `s`, or all of `s` when it is short
/// enough.
pub open spec fn preview_of(s: Seq<char>, bound: int) -> Seq<char> {
    if s.len() <= bound {
        s
    } else {
        s.subrange(0, bound)
    }
}

/// A preview is a prefix of the original text; a text no longer than the
/// bound is kept whole, and a longer one is cut to exactly the bound's
/// length.
pub proof fn lemma_preview_bound(s: Seq<char>, bound: int)
    requires
        bound >= 0,
    ensures
        s.len() <= bound ==> preview_of(s, bound) == s,
        s.len() > bound ==> preview_of(s, bound).len() == bound,
        forall|i: int| 0 <= i < preview_of(s, bound).len() ==> preview_of(s, bound)[i] == s[i],
{
}

/// The bounded preview of a text.
pub fn preview(s: &str, bound: usize) -> (p: String)
    ensures
        p@ == preview_of(s@, bound as int),
{
    let n = s.unicode_len();
    if n <= bound {
        String::from_str(s)
    } else {
        String::from_str(s.substring_char(0, bound))
    }
}

/// An arbitrarily nested structured value, as a stage's model input or
/// output hands it over.
#[derive(Debug)]
pub enum PayloadValue {
    Null,
    Truth(bool),
    Number(i64),
    Text(String),
    Items(Vec<PayloadValue>),
    Entries(Vec<(String, PayloadValue)>),
}

/// The rendered text of a payload: JSON-shaped, with texts quoted and
/// escaped per [`escaped_char`].
pub open spec fn rendered(v: PayloadValue) -> Seq<char>
    decreases v,
{
    match v {
        PayloadValue::Null => seq!['n', 'u', 'l', 'l'],
        PayloadValue::Truth(b) => if b {
            seq!['t', 'r', 'u', 'e']
        } else {
            seq!['f', 'a', 'l', 's', 'e']
        },
        PayloadValue::Number(n) => int_seq(n as int),
        PayloadValue::Text(s) => seq!['"'] + escaped(s@) + seq!['"'],
        PayloadValue::Items(vs) => seq!['['] + rendered_items(vs@) + seq![']'],
        PayloadValue::Entries(es) => seq!['{'] + rendered_entries(es@) + seq!['}'],
    }
}

/// The comma-separated rendering of a sequence of payloads.
pub open spec fn rendered_items(s: Seq<PayloadValue>) -> Seq<char>
    decreases s,
{
    if s.len() == 0 {
        Seq::empty()
    } else if s.len() == 1 {
        rendered(s.last())
    } else {
        rendered_items(s.drop_last()) + seq![','] + rendered(s.last())
    }
}

/// The rendering of one key/value entry of a mapping payload.
pub open spec fn rendered_entry(p: (String, PayloadValue)) -> Seq<char>
    decreases p,
{
    seq!['"'] + escaped(p.0@) + seq!['"', ':'] + rendered(p.1)
}

/// The comma-separated rendering of a sequence of mapping entries.
pub open spec fn rendered_entries(s: Seq<(String, PayloadValue)>) -> Seq<char>
    decreases s,
{
    if s.len() == 0 {
        Seq::empty()
    } else if s.len() == 1 {
        rendered_entry(s.last())
    } else {
        rendered_entries(s.drop_last()) + seq![','] + rendered_entry(s.last())
    }
}

proof fn lemma_rendered_items_snoc(s: Seq<PayloadValue>, i: int)
    requires
        0 <= i < s.len(),
    ensures
        i == 0 ==> rendered_items(s.subrange(0, 1)) == rendered(s[0]),
        i > 0 ==> rendered_items(s.subrange(0, i + 1)) == rendered_items(s.subrange(0, i))
            + seq![','] + rendered(s[i]),
{
    let t = s.subrange(0, i + 1);
    assert(t.drop_last() =~= s.subrange(0, i));
    assert(t.last() == s[i]);
}

proof fn lemma_rendered_entries_snoc(s: Seq<(String, PayloadValue)>, i: int)
    requires
        0 <= i < s.len(),
    ensures
        i == 0 ==> rendered_entries(s.subrange(0, 1)) == rendered_entry(s[0]),
        i > 0 ==> rendered_entries(s.subrange(0, i + 1)) == rendered_entries(s.subrange(0, i))
            + seq![','] + rendered_entry(s[i]),
{
    let t = s.subrange(0, i + 1);
    assert(t.drop_last() =~= s.subrange(0, i));
    assert(t.last() == s[i]);
}

impl PayloadValue {
    /// The rendered text of this payload.
    pub fn render(&self) -> (out: String)
        ensures
            out@ == rendered(*self),
    {
        let mut out = String::new();
        self.append_rendered(&mut out);
        out
    }

    fn append_rendered(&self, out: &mut String)
        ensures
            final(out)@ == old(out)@ + rendered(*self),
        decreases *self,
    {
        match self {
            PayloadValue::Null => {
                push_char(out, 'n');
                push_char(out, 'u');
                push_char(out, 'l');
                push_char(out, 'l');
                proof {
                    assert(old(out)@ + seq!['n'] + seq!['u'] + seq!['l'] + seq!['l']
                        =~= old(out)@ + rendered(*self));
                }
            },
            PayloadValue::Truth(b) => {
                if *b {
                    push_char(out, 't');
                    push_char(out, 'r');
                    push_char(out, 'u');
                    push_char(out, 'e');
                    proof {
                        assert(old(out)@ + seq!['t'] + seq!['r'] + seq!['u'] + seq!['e']
                            =~= old(out)@ + rendered(*self));
                    }
                } else {
                    push_char(out, 'f');
                    push_char(out, 'a');
                    push_char(out, 'l');
                    push_char(out, 's');
                    push_char(out, 'e');
                    proof {
                        assert(old(out)@ + seq!['f'] + seq!['a'] + seq!['l'] + seq!['s']
                            + seq!['e'] =~= old(out)@ + rendered(*self));
                    }
                }
            },
            PayloadValue::Number(n) => {
                append_dec_i64(out, *n);
            },
            PayloadValue::Text(s) => {
                push_char(out, '"');
                append_escaped(out, s.as_str());
                push_char(out, '"');
                proof {
                    assert(old(out)@ + seq!['"'] + escaped(s@) + seq!['"']
                        =~= old(out)@ + rendered(*self));
                }
            },
            PayloadValue::Items(vs) => {
                push_char(out, '[');
                let ghost base = out@;
                let mut i: usize = 0;
                while i < vs.len()
                    invariant
                        *self == (PayloadValue::Items(*vs)),
                        base == old(out)@ + seq!['['],
                        i <= vs@.len(),
                        out@ == base + rendered_items(vs@.subrange(0, i as int)),
                    decreases vs@.len() - i,
                {
                    if i > 0 {
                        push_char(out, ',');
                    }
                    proof {
                        assert(decreases_to!(*self => self->Items_0));
                        assert(decreases_to!(*vs => vs@[i as int]));
                    }
                    vs[i].append_rendered(out);
                    proof {
                        lemma_rendered_items_snoc(vs@, i as int);
                        assert(out@ =~= base + rendered_items(vs@.subrange(0, i + 1)));
                    }
                    i = i + 1;
                }
                push_char(out, ']');
                proof {
                    assert(vs@.subrange(0, vs@.len() as int) =~= vs@);
                    assert(out@ =~= old(out)@ + rendered(*self));
                }
            },
            PayloadValue::Entries(es) => {
                push_char(out, '{');
                let ghost base = out@;
                let mut i: usize = 0;
                while i < es.len()
                    invariant
                        *self == (PayloadValue::Entries(*es)),
                        base == old(out)@ + seq!['{'],
                        i <= es@.len(),
                        out@ == base + rendered_entries(es@.subrange(0, i as int)),
                    decreases es@.len() - i,
                {
                    if i > 0 {
                        push_char(out, ',');
                    }
                    push_char(out, '"');
                    append_escaped(out, es[i].0.as_str());
                    push_char(out, '"');
                    push_char(out, ':');
                    proof {
                        assert(decreases_to!(*self => self->Entries_0));
                        assert(decreases_to!(*es => es@[i as int]));
                        assert(decreases_to!(es@[i as int] => es@[i as int].1));
                    }
                    es[i].1.append_rendered(out);
                    proof {
                        lemma_rendered_entries_snoc(es@, i as int);
                        assert(out@ =~= base + rendered_entries(es@.subrange(0, i + 1)));
                    }
                    i = i + 1;
                }
                push_char(out, '}');
                proof {
                    assert(es@.subrange(0, es@.len() as int) =~= es@);
                    assert(out@ =~= old(out)@ + rendered(*self));
                }
            },
        }
    }
}

} // verus!
