//! Verified character and string helpers.
//!
//! The tabular model works over `Seq<char>` views of Rust strings.  This
//! module provides the split/join pair used by serialization together with
//! the lemma that they invert each other, plus ASCII lowering and trimming
//! used by the command vocabulary.

use vstd::prelude::*;

verus! {

// ---------------------------------------------------------------------------
// Character classes
// ---------------------------------------------------------------------------
/// ASCII whitespace recognised by [`trim_seq`].
pub open spec fn is_ws(c: char) -> bool {
    c == ' ' || c == '\t' || c == '\n' || c == '\r'
}

/// Lower-case an ASCII letter; other characters are unchanged.
pub open spec fn lower_char(c: char) -> char {
    if 'A' <= c && c <= 'Z' {
        ((c as u32) + 32) as char
    } else {
        c
    }
}

/// [`lower_char`] applied to every character.
pub open spec fn lower_seq(s: Seq<char>) -> Seq<char> {
    s.map_values(|c: char| lower_char(c))
}

/// Executable ASCII whitespace test.
pub fn is_ws_char(c: char) -> (r: bool)
    ensures
        r == is_ws(c),
{
    c == ' ' || c == '\t' || c == '\n' || c == '\r'
}

/// Executable ASCII lower-casing of one character.
pub fn lower_char_exec(c: char) -> (r: char)
    ensures
        r == lower_char(c),
{
    if 'A' <= c && c <= 'Z' {
        (((c as u32) + 32) as u8) as char
    } else {
        c
    }
}

// ---------------------------------------------------------------------------
// Conversions between strings and character vectors
// ---------------------------------------------------------------------------
/// The characters of a string slice, as a vector.
pub fn str_to_chars(s: &str) -> (r: Vec<char>)
    ensures
        r@ == s@,
{
    let n = s.unicode_len();
    let mut r: Vec<char> = Vec::new();
    let mut i: usize = 0;
    while i < n
        invariant
            n == s@.len(),
            i <= n,
            r@ == s@.take(i as int),
        decreases n - i,
    {
        r.push(s.get_char(i));
        i = i + 1;
        proof {
            assert(r@ =~= s@.take(i as int));
        }
    }
    proof {
        assert(s@.take(n as int) =~= s@);
    }
    r
}

/// Relies on `String`'s `FromIterator` impl: collecting characters yields the
/// string with exactly those characters.
#[verifier::external_body]
pub(crate) fn chars_to_string(v: &Vec<char>) -> (r: String)
    ensures
        r@ == v@,
{
    v.iter().collect()
}

/// Executable comparison of a character vector against a string slice.
pub fn chars_eq_str(v: &Vec<char>, s: &str) -> (r: bool)
    ensures
        r == (v@ == s@),
{
    let n = s.unicode_len();
    if v.len() != n {
        proof {
            assert(v@.len() != s@.len());
        }
        return false;
    }
    let mut i: usize = 0;
    while i < n
        invariant
            n == s@.len(),
            v@.len() == n,
            i <= n,
            forall|j: int| 0 <= j < i ==> v@[j] == s@[j],
        decreases n - i,
    {
        if v[i] != s.get_char(i) {
            return false;
        }
        i = i + 1;
    }
    proof {
        assert(v@ =~= s@);
    }
    true
}

/// Executable comparison of two string slices.
pub fn str_eq(a: &str, b: &str) -> (r: bool)
    ensures
        r == (a@ == b@),
{
    let n = a.unicode_len();
    if b.unicode_len() != n {
        proof {
            assert(a@.len() != b@.len());
        }
        return false;
    }
    let mut i: usize = 0;
    while i < n
        invariant
            n == a@.len(),
            b@.len() == n,
            i <= n,
            forall|j: int| 0 <= j < i ==> a@[j] == b@[j],
        decreases n - i,
    {
        if a.get_char(i) != b.get_char(i) {
            return false;
        }
        i = i + 1;
    }
    proof {
        assert(a@ =~= b@);
    }
    true
}

/// Lower-case every character of a vector.
pub fn lower_chars(v: &Vec<char>) -> (r: Vec<char>)
    ensures
        r@ == lower_seq(v@),
{
    let mut r: Vec<char> = Vec::new();
    let mut i: usize = 0;
    while i < v.len()
        invariant
            i <= v@.len(),
            r@ == lower_seq(v@.take(i as int)),
        decreases v@.len() - i,
    {
        r.push(lower_char_exec(v[i]));
        i = i + 1;
        proof {
            assert(r@ =~= lower_seq(v@.take(i as int)));
        }
    }
    proof {
        assert(v@.take(v@.len() as int) =~= v@);
    }
    r
}

// ---------------------------------------------------------------------------
// Trimming
// ---------------------------------------------------------------------------
/// Strip leading and trailing ASCII whitespace.
pub open spec fn trim_seq(s: Seq<char>) -> Seq<char>
    decreases s.len(),
{
    if s.len() > 0 && is_ws(s[0]) {
        trim_seq(s.skip(1))
    } else if s.len() > 0 && is_ws(s[s.len() - 1]) {
        trim_seq(s.take(s.len() - 1))
    } else {
        s
    }
}

/// Strip leading and trailing ASCII whitespace from a character vector.
pub fn trim_chars(v: &Vec<char>) -> (r: Vec<char>)
    ensures
        r@ == trim_seq(v@),
{
    let mut lo: usize = 0;
    let mut hi: usize = v.len();
    proof {
        assert(v@.subrange(0, v@.len() as int) =~= v@);
    }
    while lo < hi && is_ws_char(v[lo])
        invariant
            lo <= hi <= v@.len(),
            trim_seq(v@) == trim_seq(v@.subrange(lo as int, hi as int)),
        decreases hi - lo,
    {
        proof {
            assert(v@.subrange(lo as int, hi as int).skip(1) =~= v@.subrange(
                lo as int + 1,
                hi as int,
            ));
        }
        lo = lo + 1;
    }
    while lo < hi && is_ws_char(v[hi - 1])
        invariant
            lo <= hi <= v@.len(),
            trim_seq(v@) == trim_seq(v@.subrange(lo as int, hi as int)),
            lo < hi ==> !is_ws(v@[lo as int]),
        decreases hi - lo,
    {
        proof {
            assert(v@.subrange(lo as int, hi as int).take(hi - lo - 1) =~= v@.subrange(
                lo as int,
                hi as int - 1,
            ));
        }
        hi = hi - 1;
    }
    let mut r: Vec<char> = Vec::new();
    let mut i: usize = lo;
    while i < hi
        invariant
            lo <= i <= hi <= v@.len(),
            r@ == v@.subrange(lo as int, i as int),
        decreases hi - i,
    {
        r.push(v[i]);
        i = i + 1;
        proof {
            assert(r@ =~= v@.subrange(lo as int, i as int));
        }
    }
    proof {
        let inner = v@.subrange(lo as int, hi as int);
        assert(trim_seq(inner) == inner) by {
            if inner.len() > 0 {
                assert(inner[0] == v@[lo as int]);
                assert(inner[inner.len() - 1] == v@[hi as int - 1]);
            }
        }
        assert(r@ =~= inner);
    }
    r
}

// ---------------------------------------------------------------------------
// Splitting and joining
// ---------------------------------------------------------------------------
/// Index of the first occurrence of `sep`, or -1 if absent.
pub open spec fn find_char(s: Seq<char>, sep: char) -> int
    decreases s.len(),
{
    if s.len() == 0 {
        -1
    } else if s[0] == sep {
        0
    } else {
        let r = find_char(s.skip(1), sep);
        if r == -1 {
            -1
        } else {
            r + 1
        }
    }
}

/// What [`find_char`] returns: the first occurrence, or -1 when there is none.
pub proof fn lemma_find_char(s: Seq<char>, sep: char)
    ensures
        find_char(s, sep) == -1 ==> !s.contains(sep),
        find_char(s, sep) != -1 ==> 0 <= find_char(s, sep) < s.len(),
        find_char(s, sep) != -1 ==> s[find_char(s, sep)] == sep,
        find_char(s, sep) != -1 ==> forall|j: int| 0 <= j < find_char(s, sep) ==> s[j] != sep,
    decreases s.len(),
{
    if s.len() == 0 {
        assert(!s.contains(sep));
    } else if s[0] == sep {
    } else {
        lemma_find_char(s.skip(1), sep);
        let r = find_char(s.skip(1), sep);
        if r == -1 {
            assert forall|j: int| 0 <= j < s.len() implies s[j] != sep by {
                if j > 0 {
                    assert(s[j] == s.skip(1)[j - 1]);
                    assert(!s.skip(1).contains(sep));
                }
            }
            assert(!s.contains(sep));
        } else {
            assert(s[r + 1] == s.skip(1)[r]);
            assert forall|j: int| 0 <= j < r + 1 implies s[j] != sep by {
                if j > 0 {
                    assert(s[j] == s.skip(1)[j - 1]);
                }
            }
        }
    }
}

/// Split at every occurrence of `sep`.  The result always has at least one
/// part; n separators yield n + 1 parts, and no part contains `sep`.
pub open spec fn split_seq(s: Seq<char>, sep: char) -> Seq<Seq<char>>
    decreases s.len(),
{
    let i = find_char(s, sep);
    if i == -1 {
        seq![s]
    } else if 0 <= i < s.len() {
        seq![s.take(i)] + split_seq(s.skip(i + 1), sep)
    } else {
        // find_char never returns anything else; lemma_find_char shows it.
        seq![s]
    }
}

/// Join parts with `sep` between neighbours.
pub open spec fn join_seq(parts: Seq<Seq<char>>, sep: char) -> Seq<char>
    decreases parts.len(),
{
    if parts.len() == 0 {
        Seq::empty()
    } else if parts.len() == 1 {
        parts[0]
    } else {
        parts[0] + seq![sep] + join_seq(parts.skip(1), sep)
    }
}

/// Splitting is determined one appended character at a time: a separator
/// opens a new empty part, anything else extends the last part.
pub proof fn lemma_split_push(s: Seq<char>, sep: char, c: char)
    ensures
        split_seq(s, sep).len() > 0,
        c == sep ==> split_seq(s.push(c), sep) =~~= split_seq(s, sep).push(Seq::empty()),
        c != sep ==> split_seq(s.push(c), sep) =~~= split_seq(s, sep).update(
            split_seq(s, sep).len() - 1,
            split_seq(s, sep).last().push(c),
        ),
    decreases s.len(),
{
    lemma_find_char(s, sep);
    lemma_find_char(s.push(c), sep);
    let i = find_char(s, sep);
    let ip = find_char(s.push(c), sep);
    if i == -1 {
        if c == sep {
            // first separator is at the very end
            assert(s.push(c)[s.len() as int] == sep);
            assert(forall|j: int| 0 <= j < s.len() ==> s.push(c)[j] == s[j] && s[j] != sep);
            assert(ip == s.len());
            assert(s.push(c).take(s.len() as int) =~= s);
            assert(s.push(c).skip(s.len() as int + 1) =~= Seq::<char>::empty());
            assert(split_seq(Seq::<char>::empty(), sep) =~~= seq![Seq::<char>::empty()]);
            assert(split_seq(s.push(c), sep) =~~= seq![s.push(c).take(s.len() as int)]
                + split_seq(s.push(c).skip(s.len() as int + 1), sep));
            assert(split_seq(s.push(c), sep) =~~= seq![s, Seq::<char>::empty()]);
        } else {
            assert(forall|j: int| 0 <= j < s.len() ==> s.push(c)[j] == s[j]);
            assert(forall|j: int|
                0 <= j < s.push(c).len() ==> s.push(c)[j] != sep);
            assert(ip == -1) by {
                if ip != -1 {
                    assert(s.push(c)[ip] == sep);
                }
            }
            assert(split_seq(s.push(c), sep) =~~= seq![s.push(c)]);
        }
    } else {
        // the first separator is unchanged by the push
        assert(s.push(c)[i] == s[i]);
        assert(forall|j: int| 0 <= j < i ==> s.push(c)[j] == s[j] && s[j] != sep);
        assert(ip == i) by {
            assert(s.push(c)[i] == sep);
            if ip < i {
                assert(s.push(c)[ip] == sep);
                assert(s[ip] == sep);
            }
            if ip > i {
                assert(s.push(c)[i] != sep);
            }
        }
        assert(s.push(c).take(i) =~= s.take(i));
        assert(s.push(c).skip(i + 1) =~= s.skip(i + 1).push(c));
        lemma_split_push(s.skip(i + 1), sep, c);
        let rest = split_seq(s.skip(i + 1), sep);
        if c == sep {
            assert(split_seq(s.push(c), sep) =~~= seq![s.take(i)] + rest.push(Seq::empty()));
            assert(seq![s.take(i)] + rest.push(Seq::empty()) =~~= (seq![s.take(i)]
                + rest).push(Seq::empty()));
        } else {
            assert(split_seq(s.push(c), sep) =~~= seq![s.take(i)] + rest.update(
                rest.len() - 1,
                rest.last().push(c),
            ));
            assert(seq![s.take(i)] + rest.update(rest.len() - 1, rest.last().push(c)) =~~= (
            seq![s.take(i)] + rest).update(
                (seq![s.take(i)] + rest).len() - 1,
                (seq![s.take(i)] + rest).last().push(c),
            ));
        }
    }
}

/// Split a character vector at every occurrence of `sep`.
pub fn split_chars(v: &Vec<char>, sep: char) -> (r: Vec<Vec<char>>)
    ensures
        r.deep_view() == split_seq(v@, sep),
        r@.len() > 0,
{
    let mut out: Vec<Vec<char>> = Vec::new();
    let mut cur: Vec<char> = Vec::new();
    let mut i: usize = 0;
    proof {
        assert(split_seq(v@.take(0), sep) =~~= seq![Seq::<char>::empty()]);
        assert(out.deep_view().push(cur@) =~~= split_seq(v@.take(0), sep));
    }
    while i < v.len()
        invariant
            i <= v@.len(),
            out.deep_view().push(cur@) =~~= split_seq(v@.take(i as int), sep),
        decreases v@.len() - i,
    {
        let c = v[i];
        proof {
            assert(v@.take(i as int).push(c) =~= v@.take(i as int + 1));
            lemma_split_push(v@.take(i as int), sep, c);
        }
        if c == sep {
            out.push(cur);
            cur = Vec::new();
            proof {
                assert(out.deep_view().push(cur@) =~~= split_seq(v@.take(i as int + 1), sep));
            }
        } else {
            cur.push(c);
            proof {
                let prev = split_seq(v@.take(i as int), sep);
                assert(out.deep_view().push(cur@) =~~= prev.update(
                    prev.len() - 1,
                    prev.last().push(c),
                ));
            }
        }
        i = i + 1;
    }
    out.push(cur);
    proof {
        assert(v@.take(v@.len() as int) =~= v@);
        assert(out.deep_view() =~~= split_seq(v@, sep));
    }
    out
}

/// Joining grows one part at a time.
pub proof fn lemma_join_push(parts: Seq<Seq<char>>, sep: char, p: Seq<char>)
    ensures
        parts.len() == 0 ==> join_seq(parts.push(p), sep) =~= p,
        parts.len() > 0 ==> join_seq(parts.push(p), sep) =~= join_seq(parts, sep) + seq![sep] + p,
    decreases parts.len(),
{
    if parts.len() == 0 {
        assert(parts.push(p)[0] =~= p);
    } else if parts.len() == 1 {
        assert(parts.push(p)[0] == parts[0]);
        assert(parts.push(p).skip(1) =~= seq![p]);
        assert(join_seq(seq![p], sep) == p);
        assert(join_seq(parts.push(p), sep) == parts.push(p)[0] + seq![sep] + join_seq(
            parts.push(p).skip(1),
            sep,
        ));
        assert(join_seq(parts, sep) == parts[0]);
        assert(join_seq(parts.push(p), sep) =~= join_seq(parts, sep) + seq![sep] + p);
    } else {
        lemma_join_push(parts.skip(1), sep, p);
        assert(parts.push(p).skip(1) =~= parts.skip(1).push(p));
        assert(parts.push(p)[0] == parts[0]);
        assert(join_seq(parts.push(p), sep) == parts[0] + seq![sep] + join_seq(
            parts.skip(1).push(p),
            sep,
        ));
        assert(join_seq(parts.skip(1).push(p), sep) =~= join_seq(parts.skip(1), sep) + seq![sep]
            + p);
        assert(parts[0] + seq![sep] + (join_seq(parts.skip(1), sep) + seq![sep] + p) =~= (parts[0]
            + seq![sep] + join_seq(parts.skip(1), sep)) + seq![sep] + p);
        assert(join_seq(parts, sep) == parts[0] + seq![sep] + join_seq(parts.skip(1), sep));
        assert(join_seq(parts.push(p), sep) =~= join_seq(parts, sep) + seq![sep] + p);
    }
}

/// Join string parts with a single-character separator.
pub fn join_strings(parts: &Vec<String>, sep: &str) -> (r: String)
    requires
        sep@.len() == 1,
    ensures
        r@ == join_seq(parts.deep_view(), sep@[0]),
{
    let mut r = String::new();
    let mut i: usize = 0;
    while i < parts.len()
        invariant
            sep@.len() == 1,
            i <= parts@.len(),
            parts.deep_view().len() == parts@.len(),
            r@ == join_seq(parts.deep_view().take(i as int), sep@[0]),
        decreases parts@.len() - i,
    {
        proof {
            lemma_join_push(parts.deep_view().take(i as int), sep@[0], parts@[i as int]@);
            assert(parts.deep_view().take(i as int).push(parts.deep_view()[i as int])
                =~= parts.deep_view().take(i as int + 1));
            assert(parts.deep_view()[i as int] == parts@[i as int]@);
        }
        if i > 0 {
            r.append(sep);
            proof {
                assert(seq![sep@[0]] =~= sep@);
            }
        }
        r.append(parts[i].as_str());
        i = i + 1;
    }
    proof {
        assert(parts.deep_view().take(parts@.len() as int) =~= parts.deep_view());
    }
    r
}

/// Every whitespace character replaced by a plain space.
pub open spec fn ws_normalized(s: Seq<char>) -> Seq<char> {
    s.map_values(
        |c: char|
            if is_ws(c) {
                ' '
            } else {
                c
            },
    )
}

/// The nonempty parts of a split.
pub open spec fn nonempty_parts(parts: Seq<Seq<char>>) -> Seq<Seq<char>> {
    parts.filter(|p: Seq<char>| p.len() > 0)
}

/// Keeping nonempty parts goes part by part.
pub proof fn lemma_nonempty_parts_push(parts: Seq<Seq<char>>, p: Seq<char>)
    ensures
        p.len() > 0 ==> nonempty_parts(parts.push(p)) == nonempty_parts(parts).push(p),
        p.len() == 0 ==> nonempty_parts(parts.push(p)) == nonempty_parts(parts),
{
    assert(parts.push(p).drop_last() =~= parts);
    assert(parts.push(p).last() == p);
    reveal(Seq::filter);
}

/// The whitespace-delimited words of a text: split on every whitespace
/// character, keeping only nonempty pieces.
pub open spec fn split_ws(s: Seq<char>) -> Seq<Seq<char>> {
    nonempty_parts(split_seq(ws_normalized(s), ' '))
}

/// Split a character vector into whitespace-delimited words.
pub fn split_ws_chars(v: &Vec<char>) -> (r: Vec<Vec<char>>)
    ensures
        r.deep_view() == split_ws(v@),
{
    let mut norm: Vec<char> = Vec::new();
    let mut i: usize = 0;
    while i < v.len()
        invariant
            i <= v@.len(),
            norm@.len() == i,
            forall|j: int|
                0 <= j < i ==> norm@[j] == (if is_ws(v@[j]) {
                    ' '
                } else {
                    v@[j]
                }),
        decreases v@.len() - i,
    {
        let c = v[i];
        if is_ws_char(c) {
            norm.push(' ');
        } else {
            norm.push(c);
        }
        i = i + 1;
    }
    proof {
        assert(norm@ =~= ws_normalized(v@));
    }
    let parts = split_chars(&norm, ' ');
    let ghost partsm = parts.deep_view();
    let mut out: Vec<Vec<char>> = Vec::new();
    let mut k: usize = 0;
    proof {
        assert(partsm.take(0) =~= Seq::<Seq<char>>::empty());
        reveal(Seq::filter);
        assert(out.deep_view() =~= nonempty_parts(partsm.take(0)));
    }
    while k < parts.len()
        invariant
            k <= parts@.len(),
            parts.deep_view() == partsm,
            parts@.len() == partsm.len(),
            out.deep_view() == nonempty_parts(partsm.take(k as int)),
        decreases parts@.len() - k,
    {
        proof {
            lemma_nonempty_parts_push(partsm.take(k as int), partsm[k as int]);
            assert(partsm.take(k as int).push(partsm[k as int]) =~= partsm.take(k as int + 1));
            assert(parts.deep_view()[k as int] == parts@[k as int]@);
        }
        if parts[k].len() > 0 {
            let mut copy: Vec<char> = Vec::new();
            let mut w: usize = 0;
            while w < parts[k].len()
                invariant
                    k < parts@.len(),
                    w <= parts@[k as int]@.len(),
                    copy@ == parts@[k as int]@.take(w as int),
                decreases parts@[k as int]@.len() - w,
            {
                copy.push(parts[k][w]);
                w = w + 1;
                proof {
                    assert(copy@ =~= parts@[k as int]@.take(w as int));
                }
            }
            proof {
                assert(parts@[k as int]@.take(parts@[k as int]@.len() as int) =~= parts@[k
                    as int]@);
            }
            out.push(copy);
            proof {
                assert(out.deep_view() =~= nonempty_parts(partsm.take(k as int + 1)));
            }
        }
        k = k + 1;
    }
    proof {
        assert(partsm.take(partsm.len() as int) =~= partsm);
    }
    out
}

/// Splitting undoes joining, as long as no part contains the separator.
pub proof fn lemma_split_join(parts: Seq<Seq<char>>, sep: char)
    requires
        parts.len() > 0,
        forall|i: int| 0 <= i < parts.len() ==> !(#[trigger] parts[i]).contains(sep),
    ensures
        split_seq(join_seq(parts, sep), sep) =~~= parts,
    decreases parts.len(),
{
    if parts.len() == 1 {
        let s = parts[0];
        lemma_find_char(s, sep);
        if find_char(s, sep) != -1 {
            assert(s.contains(sep));
        }
        assert(split_seq(join_seq(parts, sep), sep) =~~= seq![s]);
    } else {
        let s = join_seq(parts, sep);
        let head = parts[0];
        let rest = join_seq(parts.skip(1), sep);
        assert(s =~= head + seq![sep] + rest);
        lemma_find_first_sep(head, rest, sep);
        assert(find_char(s, sep) == head.len());
        assert(s.take(head.len() as int) =~= head);
        assert(s.skip(head.len() as int + 1) =~= rest);
        assert(forall|i: int|
            0 <= i < parts.skip(1).len() ==> !(#[trigger] parts.skip(1)[i]).contains(sep));
        lemma_split_join(parts.skip(1), sep);
        assert(split_seq(s, sep) =~~= seq![head] + parts.skip(1));
        assert(seq![head] + parts.skip(1) =~~= parts);
    }
}

/// In `head + [sep] + rest` with a separator-free head, the first separator
/// sits exactly at `head.len()`.
pub proof fn lemma_find_first_sep(head: Seq<char>, rest: Seq<char>, sep: char)
    requires
        !head.contains(sep),
    ensures
        find_char(head + seq![sep] + rest, sep) == head.len(),
{
    let s = head + seq![sep] + rest;
    lemma_find_char(s, sep);
    assert(s[head.len() as int] == sep);
    assert(s.contains(sep));
    let i = find_char(s, sep);
    assert(i != -1);
    if i < head.len() {
        assert(s[i] == head[i]);
        assert(head.contains(sep));
    }
    if i > head.len() {
        assert(s[head.len() as int] != sep);
    }
}

/// No part contains `c`, and `c` is not the separator: then the joined
/// text does not contain `c` either.
pub proof fn lemma_join_free_of(parts: Seq<Seq<char>>, sep: char, c: char)
    requires
        c != sep,
        forall|i: int| 0 <= i < parts.len() ==> !(#[trigger] parts[i]).contains(c),
    ensures
        !join_seq(parts, sep).contains(c),
    decreases parts.len(),
{
    if parts.len() == 0 {
    } else if parts.len() == 1 {
        assert(!parts[0].contains(c));
    } else {
        assert(forall|i: int|
            0 <= i < parts.skip(1).len() ==> !(#[trigger] parts.skip(1)[i]).contains(c));
        lemma_join_free_of(parts.skip(1), sep, c);
        let s = join_seq(parts, sep);
        let head = parts[0];
        let rest = join_seq(parts.skip(1), sep);
        assert forall|j: int| 0 <= j < s.len() implies s[j] != c by {
            if j < head.len() {
                assert(s[j] == head[j]);
                if head[j] == c {
                    assert(head.contains(c));
                }
            } else if j == head.len() {
                assert(s[j] == sep);
            } else {
                assert(s[j] == rest[j - head.len() - 1]);
                if rest[j - head.len() - 1] == c {
                    assert(rest.contains(c));
                }
            }
        }
        if s.contains(c) {
            let w = choose|w: int| 0 <= w < s.len() && s[w] == c;
            assert(s[w] != c);
        }
    }
}

} // verus!
