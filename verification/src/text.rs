//! Executable text primitives with exact contracts over `Seq<char>` views:
//! lexicographic comparison, equality and prefix tests, character search,
//! decimal rendering of ids and counts.
use crate::seqtools::join_with;
use crate::seqtools::lemma_join_with_push;
use crate::seqtools::views;
use vstd::prelude::*;
use vstd::string::StrSliceExecFns;
use vstd::string::StringExecFns;

verus! {

/// Lexicographic order on character sequences, by Unicode scalar value.
/// UTF-8 encodes scalars in order, so this is also the byte-wise order
/// of the encoded strings.
pub open spec fn lex_le(a: Seq<char>, b: Seq<char>) -> bool
    decreases a.len(),
{
    if a.len() == 0 {
        true
    } else if b.len() == 0 {
        false
    } else if (a[0] as u32) < (b[0] as u32) {
        true
    } else if (a[0] as u32) > (b[0] as u32) {
        false
    } else {
        lex_le(a.drop_first(), b.drop_first())
    }
}

/// The order as a binary relation value, for use with vstd's ordering lemmas.
pub open spec fn lex_leq() -> spec_fn(Seq<char>, Seq<char>) -> bool {
    |a: Seq<char>, b: Seq<char>| lex_le(a, b)
}

pub proof fn lemma_lex_le_refl(a: Seq<char>)
    ensures
        lex_le(a, a),
    decreases a.len(),
{
    if a.len() > 0 {
        lemma_lex_le_refl(a.drop_first());
    }
}

pub proof fn lemma_lex_le_total(a: Seq<char>, b: Seq<char>)
    ensures
        lex_le(a, b) || lex_le(b, a),
    decreases a.len(),
{
    if a.len() > 0 && b.len() > 0 && (a[0] as u32) == (b[0] as u32) {
        lemma_lex_le_total(a.drop_first(), b.drop_first());
    }
}

/// Characters with the same Unicode scalar value are the same character.
pub proof fn lemma_char_eq(c1: char, c2: char)
    requires
        (c1 as u32) == (c2 as u32),
    ensures
        c1 == c2,
{
}

pub proof fn lemma_lex_le_antisym(a: Seq<char>, b: Seq<char>)
    requires
        lex_le(a, b),
        lex_le(b, a),
    ensures
        a == b,
    decreases a.len(),
{
    if a.len() == 0 {
        assert(a =~= b);
    } else {
        assert(b.len() > 0);
        let c1 = a[0];
        let c2 = b[0];
        assert((c1 as u32) == (c2 as u32)) by {
            if (c1 as u32) < (c2 as u32) {
                assert(!lex_le(b, a));
            } else if (c1 as u32) > (c2 as u32) {
                assert(!lex_le(a, b));
            }
        }
        lemma_char_eq(c1, c2);
        lemma_lex_le_antisym(a.drop_first(), b.drop_first());
        assert(a[0] == b[0]);
        assert forall|i: int| 0 <= i < a.len() implies a[i] == b[i] by {
            if i > 0 {
                assert(a.drop_first()[i - 1] == b.drop_first()[i - 1]);
            }
        }
        assert(a =~= b);
    }
}

pub proof fn lemma_lex_le_trans(a: Seq<char>, b: Seq<char>, c: Seq<char>)
    requires
        lex_le(a, b),
        lex_le(b, c),
    ensures
        lex_le(a, c),
    decreases a.len(),
{
    if a.len() > 0 && b.len() > 0 && c.len() > 0 {
        if (a[0] as u32) == (b[0] as u32) && (b[0] as u32) == (c[0] as u32) {
            lemma_lex_le_trans(a.drop_first(), b.drop_first(), c.drop_first());
        }
    }
}

pub proof fn lemma_lex_total_ordering()
    ensures
        vstd::relations::total_ordering(lex_leq()),
{
    assert forall|a: Seq<char>| #[trigger] lex_leq()(a, a) by {
        lemma_lex_le_refl(a);
    }
    assert forall|a: Seq<char>, b: Seq<char>|
        #[trigger] lex_leq()(a, b) && #[trigger] lex_leq()(b, a) implies a == b by {
        lemma_lex_le_antisym(a, b);
    }
    assert forall|a: Seq<char>, b: Seq<char>, c: Seq<char>|
        #[trigger] lex_leq()(a, b) && #[trigger] lex_leq()(b, c) implies lex_leq()(a, c) by {
        lemma_lex_le_trans(a, b, c);
    }
    assert forall|a: Seq<char>, b: Seq<char>| #[trigger] lex_leq()(a, b) || #[trigger] lex_leq()(
        b,
        a,
    ) by {
        lemma_lex_le_total(a, b);
    }
}

/// With equal prefixes of length `i`, the order is decided by the suffixes.
proof fn lemma_lex_le_skip(a: Seq<char>, b: Seq<char>, i: int)
    requires
        0 <= i <= a.len(),
        i <= b.len(),
        forall|j: int| 0 <= j < i ==> a[j] == b[j],
    ensures
        lex_le(a, b) == lex_le(a.skip(i), b.skip(i)),
    decreases i,
{
    if i > 0 {
        assert(a.drop_first()[0] == a[1] || a.drop_first().len() == 0);
        assert forall|j: int| 0 <= j < i - 1 implies a.drop_first()[j] == b.drop_first()[j] by {
            assert(a.drop_first()[j] == a[j + 1]);
            assert(b.drop_first()[j] == b[j + 1]);
        }
        lemma_lex_le_skip(a.drop_first(), b.drop_first(), i - 1);
        assert(a.drop_first().skip(i - 1) =~= a.skip(i));
        assert(b.drop_first().skip(i - 1) =~= b.skip(i));
    } else {
        assert(a.skip(0) =~= a);
        assert(b.skip(0) =~= b);
    }
}

/// Decides the lexicographic order of two strings.
pub fn str_lex_le(a: &str, b: &str) -> (r: bool)
    ensures
        r == lex_le(a@, b@),
{
    let alen = a.unicode_len();
    let blen = b.unicode_len();
    let mut i: usize = 0;
    loop
        invariant
            i <= alen,
            i <= blen,
            alen == a@.len(),
            blen == b@.len(),
            forall|j: int| 0 <= j < i ==> a@[j] == b@[j],
        decreases alen - i,
    {
        proof {
            lemma_lex_le_skip(a@, b@, i as int);
        }
        if i == alen {
            return true;
        }
        if i == blen {
            proof {
                assert(a@.skip(i as int).len() > 0);
                assert(b@.skip(i as int).len() == 0);
            }
            return false;
        }
        let ca = a.get_char(i);
        let cb = b.get_char(i);
        proof {
            assert(a@.skip(i as int)[0] == a@[i as int]);
            assert(b@.skip(i as int)[0] == b@[i as int]);
        }
        if (ca as u32) < (cb as u32) {
            return true;
        }
        if (ca as u32) > (cb as u32) {
            return false;
        }
        proof {
            assert(a@[i as int] == b@[i as int]);
        }
        i = i + 1;
    }
}

/// Compares a string with a text slice for equality of contents.
pub fn string_eq_text(s: &String, t: &str) -> (r: bool)
    ensures
        r == (s@ == t@),
{
    let t2 = String::from_str(t);
    *s == t2
}

/// Whether one of the strings has the given contents.
pub fn contains_view(v: &Vec<String>, x: &String) -> (r: bool)
    ensures
        r == views(v@).contains(x@),
{
    let n = v.len();
    let mut i: usize = 0;
    loop
        invariant
            i <= n,
            n == v@.len(),
            forall|j: int| 0 <= j < i ==> views(v@)[j] != x@,
        decreases n - i,
    {
        if i == n {
            proof {
                assert(forall|j: int| 0 <= j < views(v@).len() ==> views(v@)[j] != x@);
            }
            return false;
        }
        if v[i] == *x {
            proof {
                assert(views(v@)[i as int] == x@);
            }
            return true;
        }
        i = i + 1;
    }
}

/// Whether the number list holds the given number.
pub fn contains_usize(v: &Vec<usize>, x: usize) -> (r: bool)
    ensures
        r == v@.contains(x),
{
    let n = v.len();
    let mut i: usize = 0;
    loop
        invariant
            i <= n,
            n == v@.len(),
            forall|j: int| 0 <= j < i ==> v@[j] != x,
        decreases n - i,
    {
        if i == n {
            return false;
        }
        if v[i] == x {
            proof {
                assert(v@[i as int] == x);
            }
            return true;
        }
        i = i + 1;
    }
}

/// Whether one of the strings has the same contents as the text slice.
pub fn contains_text(v: &Vec<String>, x: &str) -> (r: bool)
    ensures
        r == views(v@).contains(x@),
{
    let s = String::from_str(x);
    contains_view(v, &s)
}

/// The sequence starts with the given prefix.
pub open spec fn starts_with_seq(s: Seq<char>, p: Seq<char>) -> bool {
    p.len() <= s.len() && s.subrange(0, p.len() as int) == p
}

pub fn has_prefix(s: &str, p: &str) -> (r: bool)
    ensures
        r == starts_with_seq(s@, p@),
{
    let sn = s.unicode_len();
    let pn = p.unicode_len();
    if pn > sn {
        return false;
    }
    let mut i: usize = 0;
    loop
        invariant
            i <= pn,
            pn <= sn,
            sn == s@.len(),
            pn == p@.len(),
            forall|j: int| 0 <= j < i ==> s@[j] == p@[j],
        decreases pn - i,
    {
        if i == pn {
            proof {
                assert(s@.subrange(0, pn as int) =~= p@);
            }
            return true;
        }
        let cs = s.get_char(i);
        let cp = p.get_char(i);
        if (cs as u32) != (cp as u32) {
            proof {
                assert(s@.subrange(0, pn as int)[i as int] == s@[i as int]);
                assert(s@[i as int] != p@[i as int]);
            }
            return false;
        }
        proof {
            assert(s@[i as int] == p@[i as int]);
        }
        i = i + 1;
    }
}

/// The sequence holds the given character somewhere.
pub open spec fn has_char(s: Seq<char>, c: char) -> bool {
    exists|i: int| 0 <= i < s.len() && s[i] == c
}

pub fn contains_char(s: &str, c: char) -> (r: bool)
    ensures
        r == has_char(s@, c),
{
    let n = s.unicode_len();
    let mut i: usize = 0;
    loop
        invariant
            i <= n,
            n == s@.len(),
            forall|j: int| 0 <= j < i ==> s@[j] != c,
        decreases n - i,
    {
        if i == n {
            return false;
        }
        let cs = s.get_char(i);
        if (cs as u32) == (c as u32) {
            proof {
                assert(s@[i as int] == c);
            }
            return true;
        }
        i = i + 1;
    }
}

/// Joins the strings with the separator between adjacent entries.
pub fn join_strings(v: &Vec<String>, sep: &str) -> (r: String)
    ensures
        r@ == join_with(views(v@), sep@),
{
    let n = v.len();
    if n == 0 {
        let r = String::new();
        proof {
            assert(r@ =~= join_with(views(v@), sep@));
        }
        return r;
    }
    let mut m = v[0].clone();
    let mut i: usize = 1;
    proof {
        assert(views(v@).take(1) =~= seq![v@[0]@]);
        assert(m@ == join_with(views(v@).take(1), sep@));
    }
    while i != n
        invariant
            1 <= i <= n,
            n == v@.len(),
            m@ == join_with(views(v@).take(i as int), sep@),
        decreases n - i,
    {
        m.append(sep);
        m.append(v[i].as_str());
        proof {
            assert(views(v@).take(i + 1) =~= views(v@).take(i as int).push(v@[i as int]@));
            lemma_join_with_push(views(v@).take(i as int), sep@, v@[i as int]@);
        }
        i = i + 1;
    }
    proof {
        assert(views(v@).take(n as int) =~= views(v@));
    }
    m
}

/// Whether the character counts as alphanumeric, in the Unicode sense.
pub uninterp spec fn alphanumeric(c: char) -> bool;

/// Relies on char::is_alphanumeric: whether the character is in one of
/// Unicode's alphabetic or numeric categories, a property of the character
/// alone. ASCII letters and digits are alphanumeric; ASCII spacing and
/// punctuation marks are not.
#[verifier::external_body]
pub fn char_is_alphanumeric(c: char) -> (r: bool)
    ensures
        r == alphanumeric(c),
        ('a' as u32) <= (c as u32) <= ('z' as u32) ==> r,
        ('A' as u32) <= (c as u32) <= ('Z' as u32) ==> r,
        ('0' as u32) <= (c as u32) <= ('9' as u32) ==> r,
        c == ' ' || c == '-' || c == '_' || c == '.' || c == '!' || c == '@' || c == '/' ==> !r,
{
    c.is_alphanumeric()
}

/// The character for one decimal digit.
pub open spec fn digit_char(d: int) -> char {
    if d == 0 {
        '0'
    } else if d == 1 {
        '1'
    } else if d == 2 {
        '2'
    } else if d == 3 {
        '3'
    } else if d == 4 {
        '4'
    } else if d == 5 {
        '5'
    } else if d == 6 {
        '6'
    } else if d == 7 {
        '7'
    } else if d == 8 {
        '8'
    } else {
        '9'
    }
}

/// The decimal representation of a number, most significant digit first.
pub open spec fn dec_rep(n: int) -> Seq<char>
    decreases n,
{
    if n < 10 {
        seq![digit_char(n)]
    } else {
        dec_rep(n / 10) + seq![digit_char(n % 10)]
    }
}

fn digit_text(d: usize) -> (r: &'static str)
    requires
        d < 10,
    ensures
        r@ == seq![digit_char(d as int)],
{
    let r: &'static str = if d == 0 {
        "0"
    } else if d == 1 {
        "1"
    } else if d == 2 {
        "2"
    } else if d == 3 {
        "3"
    } else if d == 4 {
        "4"
    } else if d == 5 {
        "5"
    } else if d == 6 {
        "6"
    } else if d == 7 {
        "7"
    } else if d == 8 {
        "8"
    } else {
        "9"
    };
    proof {
        reveal_strlit("0");
        reveal_strlit("1");
        reveal_strlit("2");
        reveal_strlit("3");
        reveal_strlit("4");
        reveal_strlit("5");
        reveal_strlit("6");
        reveal_strlit("7");
        reveal_strlit("8");
        reveal_strlit("9");
        assert(r@ =~= seq![digit_char(d as int)]);
    }
    r
}

fn push_decimal(n: usize, out: &mut String)
    ensures
        final(out)@ == old(out)@ + dec_rep(n as int),
    decreases n,
{
    if n >= 10 {
        push_decimal(n / 10, out);
        let d = n % 10;
        out.append(digit_text(d));
        proof {
            assert(out@ =~= old(out)@ + dec_rep(n as int));
        }
    } else {
        out.append(digit_text(n));
        proof {
            assert(out@ =~= old(out)@ + dec_rep(n as int));
        }
    }
}

/// Renders a number in decimal.
pub fn usize_to_string(n: usize) -> (r: String)
    ensures
        r@ == dec_rep(n as int),
{
    let mut out = String::new();
    push_decimal(n, &mut out);
    proof {
        assert(out@ =~= dec_rep(n as int));
    }
    out
}

} // verus!
