use vstd::prelude::*;

verus! {

// ---------------------------------------------------------------------------
// Substrings
// ---------------------------------------------------------------------------

/// `p` occurs in `s` starting at position `i`.
pub open spec fn occurs_at<A>(s: Seq<A>, p: Seq<A>, i: int) -> bool {
    &&& 0 <= i
    &&& i + p.len() <= s.len()
    &&& s.subrange(i, i + p.len()) == p
}

/// `p` is a substring of `s` (the empty sequence is a substring of everything).
pub open spec fn contains<A>(s: Seq<A>, p: Seq<A>) -> bool {
    exists|i: int| occurs_at(s, p, i)
}

/// `i` is the position of the leftmost occurrence of `p` in `s`.
pub open spec fn is_first_occurrence<A>(s: Seq<A>, p: Seq<A>, i: int) -> bool {
    &&& occurs_at(s, p, i)
    &&& forall|j: int| 0 <= j < i ==> !occurs_at(s, p, j)
}

/// The position of the leftmost occurrence of `p` in `s`, if any.
pub open spec fn find<A>(s: Seq<A>, p: Seq<A>) -> Option<int> {
    if exists|i: int| is_first_occurrence(s, p, i) {
        Some(choose|i: int| is_first_occurrence(s, p, i))
    } else {
        None
    }
}

/// Relates a position found by executable code to `find`.
pub open spec fn found_as(r: Option<usize>, f: Option<int>) -> bool {
    match r {
        Some(i) => f == Some(i as int),
        None => f is None,
    }
}

/// The text as a result of an optional string.
pub open spec fn text_of(r: Option<String>) -> Option<Seq<char>> {
    match r {
        Some(s) => Some(s@),
        None => None,
    }
}

/// The leftmost occurrence is unique.
pub proof fn lemma_first_occurrence_unique<A>(s: Seq<A>, p: Seq<A>, i: int, j: int)
    requires
        is_first_occurrence(s, p, i),
        is_first_occurrence(s, p, j),
    ensures
        i == j,
{
}

/// A position that is the leftmost occurrence is what `find` returns.
pub proof fn lemma_find_is<A>(s: Seq<A>, p: Seq<A>, i: int)
    requires
        is_first_occurrence(s, p, i),
    ensures
        find(s, p) == Some(i),
{
    let k = choose|k: int| is_first_occurrence(s, p, k);
    lemma_first_occurrence_unique(s, p, i, k);
}

/// Every occurrence has a leftmost occurrence at or before it.
pub proof fn lemma_occurrence_has_first<A>(s: Seq<A>, p: Seq<A>, i: int)
    requires
        occurs_at(s, p, i),
    ensures
        exists|k: int| k <= i && is_first_occurrence(s, p, k),
    decreases i,
{
    if exists|j: int| 0 <= j < i && occurs_at(s, p, j) {
        let j = choose|j: int| 0 <= j < i && occurs_at(s, p, j);
        lemma_occurrence_has_first(s, p, j);
    } else {
        assert(is_first_occurrence(s, p, i));
    }
}

/// `find` succeeds exactly on substrings.
pub proof fn lemma_find_some_iff_contains<A>(s: Seq<A>, p: Seq<A>)
    ensures
        find(s, p) is Some <==> contains(s, p),
        find(s, p) matches Some(i) ==> is_first_occurrence(s, p, i),
{
    if contains(s, p) {
        let i = choose|i: int| occurs_at(s, p, i);
        lemma_occurrence_has_first(s, p, i);
    }
}

// ---------------------------------------------------------------------------
// Executable helpers
// ---------------------------------------------------------------------------

/// The characters of `s`, in order.
pub fn chars_of(s: &str) -> (v: Vec<char>)
    ensures
        v@ == s@,
{
    let mut v: Vec<char> = Vec::new();
    for c in it: s.chars()
        invariant
            v@ == it.seq().take(it.index() as int),
    {
        v.push(c);
    }
    v
}

/// Appends a character to a string: `String::push` from std.
#[verifier::external_body]
fn push_char(s: &mut String, c: char)
    ensures
        final(s)@ == old(s)@.push(c),
{
    s.push(c);
}

/// The string whose characters are those of `v`.
pub fn string_of(v: &Vec<char>) -> (s: String)
    ensures
        s@ == v@,
{
    let mut s = String::new();
    for i in 0..v.len()
        invariant
            s@ == v@.take(i as int),
    {
        push_char(&mut s, v[i]);
        assert(v@.take(i + 1) == v@.take(i as int).push(v@[i as int]));
    }
    assert(v@.take(v.len() as int) == v@);
    s
}

/// Appends all characters of `src` to `dst`.
pub fn push_all(dst: &mut Vec<char>, src: &Vec<char>)
    ensures
        final(dst)@ == old(dst)@ + src@,
{
    for i in 0..src.len()
        invariant
            dst@ == old(dst)@ + src@.take(i as int),
    {
        dst.push(src[i]);
        assert(src@.take(i + 1) == src@.take(i as int).push(src@[i as int]));
    }
    assert(src@.take(src.len() as int) == src@);
}

/// Whether `p` occurs in `s` at position `i`.
fn chars_match_at(s: &Vec<char>, p: &Vec<char>, i: usize) -> (b: bool)
    requires
        i + p.len() <= s.len(),
    ensures
        b == occurs_at(s@, p@, i as int),
{
    let mut j: usize = 0;
    while j < p.len()
        invariant
            i + p.len() <= s.len(),
            j <= p.len(),
            forall|k: int| 0 <= k < j ==> s@[i + k] == p@[k],
        decreases p.len() - j,
    {
        if s[i + j] != p[j] {
            assert(s@.subrange(i as int, i + p.len())[j as int] != p@[j as int]);
            return false;
        }
        j = j + 1;
    }
    assert(s@.subrange(i as int, i + p.len()) =~= p@);
    true
}

/// The position of the leftmost occurrence of `p` in `s`.
pub fn find_chars(s: &Vec<char>, p: &Vec<char>) -> (r: Option<usize>)
    ensures
        found_as(r, find(s@, p@)),
{
    if p.len() > s.len() {
        assert(!contains(s@, p@));
        proof { lemma_find_some_iff_contains(s@, p@); }
        return None;
    }
    let last = s.len() - p.len();
    let mut i: usize = 0;
    loop
        invariant
            last == s.len() - p.len(),
            i <= last,
            forall|j: int| 0 <= j < i ==> !occurs_at(s@, p@, j),
        ensures
            forall|j: int| 0 <= j <= last ==> !occurs_at(s@, p@, j),
        decreases last - i,
    {
        if chars_match_at(s, p, i) {
            proof { lemma_find_is(s@, p@, i as int); }
            return Some(i);
        }
        if i == last {
            break;
        }
        i = i + 1;
    }
    assert(forall|j: int| occurs_at(s@, p@, j) ==> 0 <= j <= last);
    proof { lemma_find_some_iff_contains(s@, p@); }
    None
}

/// Whether `p` is a substring of `s`.
pub fn contains_chars(s: &Vec<char>, p: &Vec<char>) -> (b: bool)
    ensures
        b == contains(s@, p@),
{
    proof { lemma_find_some_iff_contains(s@, p@); }
    find_chars(s, p).is_some()
}

/// Whether `p` occurs in `s` at position `i`.
fn bytes_match_at(s: &[u8], p: &[u8], i: usize) -> (b: bool)
    requires
        i + p@.len() <= s@.len(),
    ensures
        b == occurs_at(s@, p@, i as int),
{
    let sl = s.len();
    let mut j: usize = 0;
    while j < p.len()
        invariant
            sl == s@.len(),
            i + p@.len() <= s@.len(),
            j <= p@.len(),
            forall|k: int| 0 <= k < j ==> s@[i + k] == p@[k],
        decreases p@.len() - j,
    {
        if s[i + j] != p[j] {
            assert(s@.subrange(i as int, i + p@.len())[j as int] != p@[j as int]);
            return false;
        }
        j = j + 1;
    }
    assert(s@.subrange(i as int, i + p@.len()) =~= p@);
    true
}

/// The position of the leftmost occurrence of `p` in `s`.
pub fn find_bytes(s: &[u8], p: &[u8]) -> (r: Option<usize>)
    ensures
        found_as(r, find(s@, p@)),
{
    if p.len() > s.len() {
        assert(!contains(s@, p@));
        proof { lemma_find_some_iff_contains(s@, p@); }
        return None;
    }
    let last = s.len() - p.len();
    let mut i: usize = 0;
    loop
        invariant
            last == s@.len() - p@.len(),
            i <= last,
            forall|j: int| 0 <= j < i ==> !occurs_at(s@, p@, j),
        ensures
            forall|j: int| 0 <= j <= last ==> !occurs_at(s@, p@, j),
        decreases last - i,
    {
        if bytes_match_at(s, p, i) {
            proof { lemma_find_is(s@, p@, i as int); }
            return Some(i);
        }
        if i == last {
            break;
        }
        i = i + 1;
    }
    assert(forall|j: int| occurs_at(s@, p@, j) ==> 0 <= j <= last);
    proof { lemma_find_some_iff_contains(s@, p@); }
    None
}

} // verus!
