use vstd::prelude::*;
use vstd::string::StrSliceExecFns;

verus! {

/// Appends one character to a string.
///
/// Relies on `String::push` of std: appends the given `char` to the end of
/// this `String`.
pub assume_specification[ String::push ](s: &mut String, ch: char)
    ensures
        final(s)@ == old(s)@.push(ch),
;

/// The index of the first occurrence of `c` in `s` at or after position `i`,
/// if any.
pub open spec fn find_from(s: Seq<char>, c: char, i: int) -> Option<int>
    decreases s.len() - i,
    when 0 <= i
{
    if i >= s.len() {
        None
    } else if s[i] == c {
        Some(i)
    } else {
        find_from(s, c, i + 1)
    }
}

/// The index of the last occurrence of `c` in `s` before position `i`, if
/// any.
pub open spec fn rfind_before(s: Seq<char>, c: char, i: int) -> Option<int>
    decreases i,
    when i <= s.len()
{
    if i <= 0 {
        None
    } else if s[i - 1] == c {
        Some(i - 1)
    } else {
        rfind_before(s, c, i - 1)
    }
}

/// `find_from` returns the first occurrence: the found position holds `c` and
/// nothing before it (from `i` on) does.
pub proof fn lemma_find_from_spec(s: Seq<char>, c: char, i: int)
    requires
        0 <= i,
    ensures
        match find_from(s, c, i) {
            Some(j) => i <= j < s.len() && s[j] == c && (forall|k: int| i <= k < j ==> s[k] != c),
            None => forall|k: int| i <= k < s.len() ==> s[k] != c,
        },
    decreases s.len() - i,
{
    if i < s.len() && s[i] != c {
        lemma_find_from_spec(s, c, i + 1);
    }
}

/// A position that holds `c`, with no occurrence of `c` between `i` and it,
/// is what `find_from` returns.
pub proof fn lemma_find_from_first(s: Seq<char>, c: char, i: int, j: int)
    requires
        0 <= i <= j < s.len(),
        s[j] == c,
        forall|k: int| i <= k < j ==> s[k] != c,
    ensures
        find_from(s, c, i) == Some(j),
    decreases j - i,
{
    if i < j {
        lemma_find_from_first(s, c, i + 1, j);
    }
}

/// When `c` occurs nowhere at or after `i`, `find_from` returns `None`.
pub proof fn lemma_find_from_none(s: Seq<char>, c: char, i: int)
    requires
        0 <= i,
        forall|k: int| i <= k < s.len() ==> s[k] != c,
    ensures
        find_from(s, c, i) is None,
    decreases s.len() - i,
{
    if i < s.len() {
        lemma_find_from_none(s, c, i + 1);
    }
}

/// A search from the start succeeds exactly when the sequence contains the
/// character.
pub proof fn lemma_find_contains(s: Seq<char>, c: char)
    ensures
        (find_from(s, c, 0) is Some) <==> s.contains(c),
{
    lemma_find_from_spec(s, c, 0);
    match find_from(s, c, 0) {
        Some(j) => {
            assert(s[j] == c);
            assert(s.contains(c));
        },
        None => {
            if s.contains(c) {
                let j = choose|j: int| 0 <= j < s.len() && s[j] == c;
                assert(s[j] != c);
            }
        },
    }
}

/// The quote characters that are stripped from a raw profile value.
pub open spec fn is_quote(c: char) -> bool {
    c == '"' || c == '\''
}

/// `s` with every double- and single-quote character removed.
pub open spec fn strip_quotes(s: Seq<char>) -> Seq<char>
    decreases s.len(),
{
    if s.len() == 0 {
        Seq::empty()
    } else {
        let prefix = strip_quotes(s.drop_last());
        if is_quote(s.last()) {
            prefix
        } else {
            prefix.push(s.last())
        }
    }
}

/// Stripping quotes from a quote-free sequence leaves it unchanged.
pub proof fn lemma_strip_quotes_id(s: Seq<char>)
    requires
        forall|k: int| 0 <= k < s.len() ==> !is_quote(s[k]),
    ensures
        strip_quotes(s) == s,
    decreases s.len(),
{
    if s.len() > 0 {
        lemma_strip_quotes_id(s.drop_last());
        assert(strip_quotes(s.drop_last()).push(s.last()) =~= s);
    }
}

/// Quote stripping distributes over concatenation.
pub proof fn lemma_strip_quotes_concat(a: Seq<char>, b: Seq<char>)
    ensures
        strip_quotes(a + b) == strip_quotes(a) + strip_quotes(b),
    decreases b.len(),
{
    if b.len() == 0 {
        assert(a + b =~= a);
        assert(strip_quotes(a) + strip_quotes(b) =~= strip_quotes(a));
    } else {
        lemma_strip_quotes_concat(a, b.drop_last());
        assert((a + b).drop_last() =~= a + b.drop_last());
        assert((a + b).last() == b.last());
        if !is_quote(b.last()) {
            assert(strip_quotes(a) + strip_quotes(b) =~= (strip_quotes(a) + strip_quotes(
                b.drop_last(),
            )).push(b.last()));
        }
    }
}

/// `s` divided at every occurrence of `c`, the separators dropped.  Splitting
/// never yields an empty list: a sequence without `c` is one piece.
pub open spec fn split_seq(s: Seq<char>, c: char) -> Seq<Seq<char>>
    decreases s.len(),
{
    match find_from(s, c, 0) {
        None => seq![s],
        Some(i) => {
            proof {
                lemma_find_from_spec(s, c, 0);
            }
            seq![s.subrange(0, i)] + split_seq(s.subrange(i + 1, s.len() as int), c)
        },
    }
}

/// A sequence free of the separator splits into a single piece.
pub proof fn lemma_split_no_delim(s: Seq<char>, c: char)
    requires
        !s.contains(c),
    ensures
        split_seq(s, c) == seq![s],
{
    assert forall|k: int| 0 <= k < s.len() implies s[k] != c by {
        if s[k] == c {
            assert(s.contains(c));
        }
    }
    lemma_find_from_none(s, c, 0);
}

/// Splitting takes off the first piece at the first separator.
pub proof fn lemma_split_prefix(s1: Seq<char>, c: char, s2: Seq<char>)
    requires
        !s1.contains(c),
    ensures
        split_seq(s1 + seq![c] + s2, c) == seq![s1] + split_seq(s2, c),
{
    let s = s1 + seq![c] + s2;
    assert(s[s1.len() as int] == c);
    assert forall|k: int| 0 <= k < s1.len() implies s[k] != c by {
        assert(s[k] == s1[k]);
        if s1[k] == c {
            assert(s1.contains(c));
        }
    }
    lemma_find_from_first(s, c, 0, s1.len() as int);
    assert(s.subrange(0, s1.len() as int) =~= s1);
    assert(s.subrange(s1.len() as int + 1, s.len() as int) =~= s2);
}

/// Finds the first occurrence of `c` in `s` at or after `from`.
pub fn find_char(s: &str, c: char, from: usize) -> (r: Option<usize>)
    ensures
        match r {
            Some(j) => find_from(s@, c, from as int) == Some(j as int) && from <= j < s@.len(),
            None => find_from(s@, c, from as int) is None,
        },
{
    let n: usize = s.unicode_len();
    let mut i: usize = from;
    while i < n
        invariant
            from <= i,
            n as nat == s@.len(),
            find_from(s@, c, from as int) == find_from(s@, c, i as int),
        decreases n - i,
    {
        if s.get_char(i) == c {
            return Some(i);
        }
        i = i + 1;
    }
    None
}

/// Finds the last occurrence of `c` in `s`.
pub fn rfind_char(s: &str, c: char) -> (r: Option<usize>)
    ensures
        match r {
            Some(j) => rfind_before(s@, c, s@.len() as int) == Some(j as int) && j < s@.len(),
            None => rfind_before(s@, c, s@.len() as int) is None,
        },
{
    let n: usize = s.unicode_len();
    let mut i: usize = n;
    while i > 0
        invariant
            i <= n,
            n as nat == s@.len(),
            rfind_before(s@, c, n as int) == rfind_before(s@, c, i as int),
        decreases i,
    {
        if s.get_char(i - 1) == c {
            return Some(i - 1);
        }
        i = i - 1;
    }
    None
}

/// Removes every double- and single-quote character from `s`.
pub fn strip_quote_chars(s: &str) -> (r: String)
    ensures
        r@ == strip_quotes(s@),
{
    let n: usize = s.unicode_len();
    let mut out: String = String::new();
    let mut i: usize = 0;
    while i < n
        invariant
            i <= n,
            n as nat == s@.len(),
            out@ == strip_quotes(s@.subrange(0, i as int)),
        decreases n - i,
    {
        let ch = s.get_char(i);
        if !(ch == '"' || ch == '\'') {
            out.push(ch);
        }
        proof {
            assert(s@.subrange(0, i + 1).drop_last() =~= s@.subrange(0, i as int));
        }
        i = i + 1;
    }
    proof {
        assert(s@.subrange(0, n as int) =~= s@);
    }
    out
}

/// Splits `s` at every occurrence of `c`, the separators dropped.
pub fn split_char(s: &str, c: char) -> (r: Vec<String>)
    ensures
        r.deep_view() == split_seq(s@, c),
        r@.len() > 0,
{
    let mut out: Vec<String> = Vec::new();
    let mut rest: String = s.to_owned();
    proof {
        assert(out.deep_view() + split_seq(rest@, c) =~= split_seq(s@, c));
    }
    loop
        invariant
            out.deep_view() + split_seq(rest@, c) == split_seq(s@, c),
        decreases rest@.len(),
    {
        let rn: usize = rest.as_str().unicode_len();
        let ghost prev = out.deep_view();
        match find_char(rest.as_str(), c, 0) {
            Some(i) => {
                let piece: String = rest.as_str().substring_char(0, i).to_owned();
                let tail: String = rest.as_str().substring_char(i + 1, rn).to_owned();
                out.push(piece);
                proof {
                    assert(out.deep_view() =~= prev.push(rest@.subrange(0, i as int)));
                    assert(out.deep_view() + split_seq(tail@, c) =~= prev + split_seq(rest@, c));
                }
                rest = tail;
            },
            None => {
                let ghost rest_view = rest@;
                out.push(rest);
                proof {
                    assert(out.deep_view() =~= prev.push(rest_view));
                    assert(out.deep_view() =~= prev + split_seq(rest_view, c));
                }
                return out;
            },
        }
    }
}

} // verus!
