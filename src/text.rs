//! Character-level helpers on strings: prefix tests and quoting.
use vstd::prelude::*;

verus! {

/// `p` is a prefix of `s`.
pub open spec fn is_prefix(p: Seq<char>, s: Seq<char>) -> bool {
    p.len() <= s.len() && s.subrange(0, p.len() as int) == p
}

/// What one character becomes inside a backtick- or double-quote-delimited string.
pub open spec fn escaped_char(c: char) -> Seq<char> {
    if c == '\\' {
        seq!['\\', '\\']
    } else if c == '`' {
        seq!['\\', '`']
    } else if c == '"' {
        seq!['\\', '"']
    } else {
        seq![c]
    }
}

/// `s` with every backslash, backtick and double quote preceded by a backslash.
pub open spec fn escaped(s: Seq<char>) -> Seq<char>
    decreases s.len(),
{
    if s.len() == 0 {
        Seq::empty()
    } else {
        escaped(s.drop_last()) + escaped_char(s.last())
    }
}

/// Whether `s` starts with `p`, compared character by character.
pub fn starts_with(s: &str, p: &str) -> (r: bool)
    ensures
        r == is_prefix(p@, s@),
{
    let n: usize = s.unicode_len();
    let m: usize = p.unicode_len();
    if m > n {
        return false;
    }
    let mut i: usize = 0;
    while i < m
        invariant
            m <= n,
            n == s@.len(),
            m == p@.len(),
            i <= m,
            forall|k: int| 0 <= k < i ==> s@[k] == p@[k],
        decreases m - i,
    {
        if s.get_char(i) != p.get_char(i) {
            assert(s@.subrange(0, m as int)[i as int] != p@[i as int]);
            return false;
        }
        i = i + 1;
    }
    assert(s@.subrange(0, m as int) =~= p@);
    true
}

/// Whether the two strings hold the same characters.
pub fn same(a: &str, b: &str) -> (r: bool)
    ensures
        r == (a@ == b@),
{
    if a.unicode_len() != b.unicode_len() {
        return false;
    }
    let r = starts_with(a, b);
    assert(a@.subrange(0, b@.len() as int) =~= a@);
    r
}

/// Escapes backslashes, backticks and double quotes with a backslash.
pub fn escape(s: &str) -> (r: String)
    ensures
        r@ == escaped(s@),
{
    let n: usize = s.unicode_len();
    let mut out = String::new();
    let mut i: usize = 0;
    while i < n
        invariant
            n == s@.len(),
            i <= n,
            out@ == escaped(s@.subrange(0, i as int)),
        decreases n - i,
    {
        let c = s.get_char(i);
        let piece = s.substring_char(i, i + 1);
        proof {
            reveal_strlit("\\\\");
            reveal_strlit("\\`");
            reveal_strlit("\\\"");
        }
        if c == '\\' {
            out.append("\\\\");
        } else if c == '`' {
            out.append("\\`");
        } else if c == '"' {
            out.append("\\\"");
        } else {
            out.append(piece);
        }
        assert(s@.subrange(0, i + 1 as int).drop_last() =~= s@.subrange(0, i as int));
        assert(piece@ =~= seq![c]);
        i = i + 1;
    }
    assert(s@.subrange(0, n as int) =~= s@);
    out
}

/// Read from the start as a quoted string is read, where a backslash takes the next
/// character with it: no backtick or double quote stands on its own.
pub open spec fn quotes_escaped(r: Seq<char>) -> bool
    decreases r.len(),
{
    if r.len() == 0 {
        true
    } else if r[0] == '\\' {
        r.len() >= 2 && quotes_escaped(r.skip(2))
    } else {
        r[0] != '`' && r[0] != '"' && quotes_escaped(r.skip(1))
    }
}

proof fn lemma_quotes_escaped_concat(a: Seq<char>, b: Seq<char>)
    requires
        quotes_escaped(a),
        quotes_escaped(b),
    ensures
        quotes_escaped(a + b),
    decreases a.len(),
{
    if a.len() > 0 {
        if a[0] == '\\' {
            lemma_quotes_escaped_concat(a.skip(2), b);
            assert((a + b).skip(2) =~= a.skip(2) + b);
        } else {
            lemma_quotes_escaped_concat(a.skip(1), b);
            assert((a + b).skip(1) =~= a.skip(1) + b);
        }
    } else {
        assert(a + b =~= b);
    }
}

/// Escaping keeps every backtick and double quote from closing the string it is put in:
/// a reader that takes each backslash with the character after it finds none on its own.
pub proof fn lemma_escaped_keeps_quotes(s: Seq<char>)
    ensures
        quotes_escaped(escaped(s)),
    decreases s.len(),
{
    if s.len() > 0 {
        lemma_escaped_keeps_quotes(s.drop_last());
        let e = escaped_char(s.last());
        assert(quotes_escaped(Seq::<char>::empty()));
        if e.len() == 2 {
            assert(e.skip(2) =~= Seq::<char>::empty());
        } else {
            assert(e.skip(1) =~= Seq::<char>::empty());
        }
        assert(quotes_escaped(e));
        lemma_quotes_escaped_concat(escaped(s.drop_last()), e);
    }
}

/// Relies on `char::to_string`: the string holding that one character.
#[verifier::external_body]
pub(crate) fn char_to_string(c: char) -> (r: String)
    ensures
        r@ == seq![c],
{
    c.to_string()
}

} // verus!
