//! Text helpers shared by the lexer, the parser and the printers.
use vstd::prelude::*;
use vstd::string::*;
use vstd::utf8::*;
use vstd::std_specs::iter::IteratorSpec;

verus! {

broadcast use vstd::string::group_string_axioms;

/// Two strings are equal exactly when their UTF-8 encodings are.
pub proof fn lemma_bytes_eq_iff_chars_eq(a: &str, b: &str)
    ensures
        (a.spec_bytes() == b.spec_bytes()) <==> (a@ == b@),
{
    encode_utf8_decode_utf8(a@);
    encode_utf8_decode_utf8(b@);
}

/// Compares two string slices.
pub fn str_eq(a: &str, b: &str) -> (res: bool)
    ensures
        res == (a@ == b@),
{
    let x = a.as_bytes();
    let y = b.as_bytes();
    proof {
        lemma_bytes_eq_iff_chars_eq(a, b);
    }
    if x.len() != y.len() {
        assert(x@ != y@);
        return false;
    }
    let mut i: usize = 0;
    while i < x.len()
        invariant
            x@ == a.spec_bytes(),
            y@ == b.spec_bytes(),
            (a.spec_bytes() == b.spec_bytes()) <==> (a@ == b@),
            x@.len() == y@.len(),
            i <= x@.len(),
            forall|j: int| 0 <= j < i ==> x@[j] == y@[j],
        decreases x@.len() - i,
    {
        if x[i] != y[i] {
            assert(x@[i as int] != y@[i as int]);
            return false;
        }
        i = i + 1;
    }
    assert(x@ =~= y@);
    true
}

/// The characters of a string slice are the decoding of its bytes.
pub proof fn lemma_chars_of_bytes(a: &str)
    ensures
        a@ == decode_utf8(a.spec_bytes()),
        valid_utf8(a.spec_bytes()),
{
    encode_utf8_decode_utf8(a@);
    encode_utf8_valid_utf8(a@);
}

/// An owned copy of a string slice.
pub fn to_string(s: &str) -> (res: String)
    ensures
        res@ == s@,
{
    s.to_string()
}

/// `char::to_string`: std's `Display` for `char` writes the character
/// itself, so the string holds exactly `c`.
#[verifier::external_body]
pub fn char_to_string(c: char) -> (res: String)
    ensures
        res@ == seq![c],
{
    c.to_string()
}

/// The decimal digit `d` (below ten) as a character.
pub open spec fn digit_char(d: nat) -> char {
    (48 + d) as char
}

/// The decimal notation of `n`, without leading zeros.
pub open spec fn decimal(n: nat) -> Seq<char>
    decreases n,
{
    if n < 10 {
        seq![digit_char(n)]
    } else {
        decimal(n / 10) + seq![digit_char(n % 10)]
    }
}

/// `n` copies of `unit`, one after another.
pub open spec fn repeat(unit: Seq<char>, n: nat) -> Seq<char>
    decreases n,
{
    if n == 0 {
        Seq::empty()
    } else {
        repeat(unit, (n - 1) as nat) + unit
    }
}

fn digit_str(d: usize) -> (res: &'static str)
    requires
        d < 10,
    ensures
        res@ == seq![digit_char(d as nat)],
{
    proof {
        reveal_strlit("0");
        reveal_strlit("1");
        reveal_strlit("2");
        reveal_strlit("3");
        reveal_strlit("4");
        reveal_strlit("5");
        reveal_strlit("6");
        reveal_strlit("7");
        reveal_strlit("8");
        reveal_strlit("9");
    }
    if d == 0 {
        "0"
    } else if d == 1 {
        "1"
    } else if d == 2 {
        "2"
    } else if d == 3 {
        "3"
    } else if d == 4 {
        "4"
    } else if d == 5 {
        "5"
    } else if d == 6 {
        "6"
    } else if d == 7 {
        "7"
    } else if d == 8 {
        "8"
    } else {
        "9"
    }
}

/// Appends the decimal notation of `n`.
pub fn push_decimal(out: &mut String, n: usize)
    ensures
        final(out)@ == old(out)@ + decimal(n as nat),
    decreases n,
{
    if n >= 10 {
        push_decimal(out, n / 10);
    }
    out.append(digit_str(n % 10));
    assert(final(out)@ =~= old(out)@ + decimal(n as nat)) by {
        if n >= 10 {
            assert(decimal(n as nat) == decimal((n / 10) as nat) + seq![digit_char((n % 10) as nat)]);
        }
    }
}

/// Appends `n` copies of `unit`.
pub fn push_repeat(out: &mut String, unit: &str, n: usize)
    ensures
        final(out)@ == old(out)@ + repeat(unit@, n as nat),
{
    let mut i: usize = 0;
    assert(old(out)@ + repeat(unit@, 0) =~= old(out)@);
    while i < n
        invariant
            i <= n,
            out@ == old(out)@ + repeat(unit@, i as nat),
        decreases n - i,
    {
        out.append(unit);
        assert(out@ =~= old(out)@ + repeat(unit@, (i + 1) as nat));
        i = i + 1;
    }
}

/// A line without the carriage return that ended it before its line feed.
pub open spec fn strip_cr(l: Seq<char>) -> Seq<char> {
    if l.len() > 0 && l.last() == '\r' {
        l.drop_last()
    } else {
        l
    }
}

/// The position of the first line feed, if any.
pub open spec fn first_newline(s: Seq<char>) -> Option<int>
    decreases s.len(),
{
    if s.len() == 0 {
        None
    } else if s[0] == '\n' {
        Some(0)
    } else {
        match first_newline(s.skip(1)) {
            Some(i) => Some(i + 1),
            None => None,
        }
    }
}

/// The lines of a text, as `str::lines` gives them: split at each line
/// feed, with one carriage return before a line feed removed; a final line
/// feed ends the last line rather than starting an empty one.
pub open spec fn lines(s: Seq<char>) -> Seq<Seq<char>>
    decreases s.len(),
{
    if s.len() == 0 {
        Seq::empty()
    } else {
        match first_newline(s) {
            None => seq![s],
            Some(i) => {
                proof {
                    lemma_first_newline_bounds(s);
                }
                seq![strip_cr(s.take(i))] + lines(s.skip(i + 1))
            },
        }
    }
}

/// Line `n` of a text (counted from zero), or the empty line if it has
/// fewer lines.
pub open spec fn nth_line(s: Seq<char>, n: nat) -> Seq<char> {
    if n < lines(s).len() {
        lines(s)[n as int]
    } else {
        Seq::empty()
    }
}

pub proof fn lemma_first_newline_bounds(s: Seq<char>)
    ensures
        first_newline(s) matches Some(i) ==> 0 <= i < s.len() && s[i] == '\n',
    decreases s.len(),
{
    if s.len() > 0 && s[0] != '\n' {
        lemma_first_newline_bounds(s.skip(1));
    }
}

/// No line feed comes before the first one.
pub proof fn lemma_first_newline_first(s: Seq<char>)
    ensures
        first_newline(s) matches Some(i) ==> forall|k: int| 0 <= k < i ==> s[k] != '\n',
        first_newline(s) is None ==> forall|k: int| 0 <= k < s.len() ==> s[k] != '\n',
    decreases s.len(),
{
    if s.len() > 0 && s[0] != '\n' {
        let t = s.skip(1);
        lemma_first_newline_first(t);
        lemma_first_newline_bounds(t);
        if let Some(j) = first_newline(t) {
            assert(first_newline(s) == Some(j + 1));
            assert forall|k: int| 0 <= k < j + 1 implies s[k] != '\n' by {
                if k > 0 {
                    assert(s[k] == t[k - 1]);
                }
            }
        } else {
            assert forall|k: int| 0 <= k < s.len() implies s[k] != '\n' by {
                if k > 0 {
                    assert(s[k] == t[k - 1]);
                }
            }
        }
    }
}

/// The first line feed is the one with none before it.
pub proof fn lemma_first_newline_at(s: Seq<char>, j: int)
    requires
        0 <= j <= s.len(),
        forall|k: int| 0 <= k < j ==> s[k] != '\n',
    ensures
        j < s.len() && s[j] == '\n' ==> first_newline(s) == Some(j),
        j == s.len() ==> first_newline(s) is None,
    decreases j,
{
    if j > 0 {
        lemma_first_newline_at(s.skip(1), j - 1);
    }
}

/// Line `n` of `source` (counted from zero), or `""` if there is none; a
/// slice of `source`.
pub fn nth_line_of<'s>(source: &'s str, n: usize) -> (res: &'s str)
    ensures
        res@ == nth_line(source@, n as nat),
{
    let ghost s = source@;
    let total = source.unicode_len();
    let mut it = source.chars();
    proof {
        axiom_spec_iter(source);
    }
    let mut i: usize = 0;
    let mut k: usize = 0;
    let mut start: usize = 0;
    assert(s.skip(0) =~= s);
    loop
        invariant
            s == source@,
            total == s.len(),
            it.obeys_prophetic_iter_laws(),
            it.remaining() == s.skip(i as int),
            start <= i <= s.len(),
            k <= n,
            forall|j: int| start <= j < i ==> s[j] != '\n',
            lines(s).len() == k + lines(s.skip(start as int)).len(),
            n < lines(s).len() ==> lines(s)[n as int] == lines(s.skip(start as int))[n - k],
        decreases s.len() - i,
    {
        let c = match it.next() {
            None => {
                proof {
                    if i < s.len() {
                        assert(s.skip(i as int).len() > 0);
                    }
                    let t = s.skip(start as int);
                    assert forall|j: int| 0 <= j < t.len() implies t[j] != '\n' by {
                        assert(t[j] == s[start + j]);
                    }
                    lemma_first_newline_at(t, t.len() as int);
                    if start < i {
                        assert(lines(t) == seq![t]);
                    } else {
                        assert(t.len() == 0);
                        assert(lines(t).len() == 0);
                    }
                }
                if k == n && start < i {
                    let r = source.substring_char(start, i);
                    proof {
                        let t = s.skip(start as int);
                        assert(t =~= s.subrange(start as int, i as int));
                    }
                    return r;
                }
                proof {
                    reveal_strlit("");
                }
                return "";
            },
            Some(c) => c,
        };
        proof {
            assert(s.skip(i as int).len() > 0);
            assert(c == s[i as int]);
        }
        if c == '\n' {
            proof {
                let t = s.skip(start as int);
                assert forall|j: int| 0 <= j < i - start implies t[j] != '\n' by {
                    assert(t[j] == s[start + j]);
                }
                assert(t[i - start] == '\n');
                lemma_first_newline_at(t, i - start);
                assert(t.skip(i - start + 1) =~= s.skip(i + 1));
                assert(t.take(i - start) =~= s.subrange(start as int, i as int));
                assert(lines(t) == seq![strip_cr(t.take(i - start))] + lines(s.skip(i + 1)));
            }
            if k == n {
                let ghost l = s.subrange(start as int, i as int);
                proof {
                    let t = s.skip(start as int);
                    assert(lines(t)[0] == strip_cr(l));
                    assert(nth_line(s, n as nat) == strip_cr(l));
                }
                let r = source.substring_char(start, i);
                if i > start {
                    let last = source.substring_char(i - 1, i);
                    proof {
                        assert(last@ =~= seq![l.last()]);
                        reveal_strlit("\r");
                        assert("\r"@ =~= seq!['\r']);
                    }
                    if str_eq(last, "\r") {
                        let trimmed = source.substring_char(start, i - 1);
                        assert(last@[0] == '\r');
                        assert(l.last() == '\r');
                        assert(trimmed@ =~= l.drop_last());
                        return trimmed;
                    }
                    assert(l.last() != '\r');
                }
                assert(r@ == strip_cr(l));
                return r;
            }
            k = k + 1;
            start = i + 1;
        }
        i = i + 1;
    }
}

} // verus!
