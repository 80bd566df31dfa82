use vstd::prelude::*;

verus! {

// ---------------------------------------------------------------------------
// Case folding
// ---------------------------------------------------------------------------

/// ASCII case folding on a single code point: upper-case letters map to
/// their lower-case counterpart, everything else is unchanged.
pub open spec fn lower_u32(c: u32) -> u32 {
    if 65 <= c && c <= 90 {
        (c + 32) as u32
    } else {
        c
    }
}

/// The sequence of case-folded code points of a text.
pub open spec fn lower_view(s: Seq<char>) -> Seq<u32> {
    Seq::new(s.len(), |i: int| lower_u32(s[i] as u32))
}

/// Case-fold a text into its sequence of lower-case code points.
pub fn lower_vec(s: &Vec<char>) -> (r: Vec<u32>)
    ensures
        r@ == lower_view(s@),
{
    let mut r: Vec<u32> = Vec::new();
    let mut i: usize = 0;
    while i < s.len()
        invariant
            i <= s.len(),
            r@ == lower_view(s@).take(i as int),
        decreases s.len() - i,
    {
        let c = s[i] as u32;
        if 65 <= c && c <= 90 {
            r.push(c + 32);
        } else {
            r.push(c);
        }
        assert(r@ =~= lower_view(s@).take(i + 1));
        i = i + 1;
    }
    assert(r@ =~= lower_view(s@));
    r
}

/// Copy a text, character by character.
pub fn clone_chars(s: &Vec<char>) -> (r: Vec<char>)
    ensures
        r@ == s@,
{
    let mut r: Vec<char> = Vec::new();
    let mut i: usize = 0;
    while i < s.len()
        invariant
            i <= s.len(),
            r@ == s@.take(i as int),
        decreases s.len() - i,
    {
        r.push(s[i]);
        assert(r@ =~= s@.take(i + 1));
        i = i + 1;
    }
    assert(r@ =~= s@);
    r
}

// ---------------------------------------------------------------------------
// Substring containment
// ---------------------------------------------------------------------------

/// `needle` occurs in `hay` starting at position `i`.
pub open spec fn contains_at(hay: Seq<u32>, needle: Seq<u32>, i: int) -> bool {
    &&& 0 <= i
    &&& i + needle.len() <= hay.len()
    &&& hay.subrange(i, i + needle.len()) == needle
}

/// `needle` occurs somewhere in `hay`. The empty needle occurs in every text.
pub open spec fn contains_seq(hay: Seq<u32>, needle: Seq<u32>) -> bool {
    exists|i: int| contains_at(hay, needle, i)
}

/// A process name matches a filter text when the case-folded filter occurs
/// in the case-folded name.
pub open spec fn name_matches(name: Seq<char>, filter: Seq<char>) -> bool {
    contains_seq(lower_view(name), lower_view(filter))
}

fn match_at(hay: &Vec<u32>, needle: &Vec<u32>, i: usize) -> (r: bool)
    requires
        i + needle.len() <= hay.len(),
    ensures
        r == contains_at(hay@, needle@, i as int),
{
    let mut j: usize = 0;
    while j < needle.len()
        invariant
            j <= needle.len(),
            i + needle.len() <= hay.len(),
            hay@.subrange(i as int, i + j) =~= needle@.take(j as int),
        decreases needle.len() - j,
    {
        if hay[i + j] != needle[j] {
            assert(hay@.subrange(i as int, i + needle@.len())[j as int] != needle@[j as int]);
            return false;
        }
        assert(hay@.subrange(i as int, i + j + 1) =~= needle@.take(j + 1));
        j = j + 1;
    }
    assert(hay@.subrange(i as int, i + needle@.len()) =~= needle@);
    true
}

/// Decide substring containment of `needle` in `hay`.
pub fn find_sub(hay: &Vec<u32>, needle: &Vec<u32>) -> (r: bool)
    ensures
        r == contains_seq(hay@, needle@),
{
    if needle.len() > hay.len() {
        assert(forall|i: int| !contains_at(hay@, needle@, i));
        return false;
    }
    if needle.len() == 0 {
        assert(contains_at(hay@, needle@, 0)) by {
            assert(hay@.subrange(0, 0) =~= needle@);
        }
        return true;
    }
    let bound = hay.len() - needle.len();
    let mut i: usize = 0;
    loop
        invariant
            i <= bound + 1,
            bound == hay@.len() - needle@.len(),
            needle@.len() >= 1,
            bound < usize::MAX,
            forall|k: int| 0 <= k < i ==> !contains_at(hay@, needle@, k),
        decreases bound + 1 - i,
    {
        if i > bound {
            assert(forall|k: int| contains_at(hay@, needle@, k) ==> 0 <= k <= bound);
            return false;
        }
        if match_at(hay, needle, i) {
            return true;
        }
        i = i + 1;
    }
}

/// Decide whether a process name matches a filter text.
pub fn name_matches_exec(name: &Vec<char>, filter: &Vec<char>) -> (r: bool)
    ensures
        r == name_matches(name@, filter@),
{
    let lname = lower_vec(name);
    let lfilter = lower_vec(filter);
    find_sub(&lname, &lfilter)
}

// ---------------------------------------------------------------------------
// Lexicographic order
// ---------------------------------------------------------------------------

/// Lexicographic order on texts, by code point; the order used for the
/// name and status columns.
pub open spec fn lex_le(a: Seq<char>, b: Seq<char>) -> bool
    decreases a.len(),
{
    if a.len() == 0 {
        true
    } else if b.len() == 0 {
        false
    } else if (a[0] as u32) < (b[0] as u32) {
        true
    } else if (a[0] as u32) > (b[0] as u32) {
        false
    } else {
        lex_le(a.drop_first(), b.drop_first())
    }
}

/// Any two texts are ordered one way or the other.
pub proof fn lemma_lex_le_total(a: Seq<char>, b: Seq<char>)
    ensures
        lex_le(a, b) || lex_le(b, a),
    decreases a.len(),
{
    if a.len() > 0 && b.len() > 0 && (a[0] as u32) == (b[0] as u32) {
        lemma_lex_le_total(a.drop_first(), b.drop_first());
    }
}

/// Lexicographic order is transitive.
pub proof fn lemma_lex_le_trans(a: Seq<char>, b: Seq<char>, c: Seq<char>)
    requires
        lex_le(a, b),
        lex_le(b, c),
    ensures
        lex_le(a, c),
    decreases a.len(),
{
    if a.len() > 0 && b.len() > 0 && c.len() > 0 {
        if (a[0] as u32) == (b[0] as u32) && (b[0] as u32) == (c[0] as u32) {
            lemma_lex_le_trans(a.drop_first(), b.drop_first(), c.drop_first());
        }
    }
}

/// Texts ordered both ways are equal.
pub proof fn lemma_lex_le_antisym(a: Seq<char>, b: Seq<char>)
    requires
        lex_le(a, b),
        lex_le(b, a),
    ensures
        a == b,
    decreases a.len(),
{
    if a.len() > 0 && b.len() > 0 {
        vstd::utf8::char_u32_cast(a[0], a[0] as u32);
        vstd::utf8::char_u32_cast(b[0], b[0] as u32);
        lemma_lex_le_antisym(a.drop_first(), b.drop_first());
        assert(a =~= seq![a[0]] + a.drop_first());
        assert(b =~= seq![b[0]] + b.drop_first());
    } else {
        assert(a =~= b);
    }
}

/// Decide `lex_le` on the suffixes of `a` and `b` that start at `i`.
fn lex_le_from(a: &Vec<char>, b: &Vec<char>, i: usize) -> (r: bool)
    requires
        i <= a.len(),
        i <= b.len(),
    ensures
        r == lex_le(a@.skip(i as int), b@.skip(i as int)),
    decreases a.len() - i,
{
    if i == a.len() {
        true
    } else if i == b.len() {
        false
    } else {
        let ca = a[i] as u32;
        let cb = b[i] as u32;
        assert(a@.skip(i as int)[0] == a@[i as int]);
        assert(b@.skip(i as int)[0] == b@[i as int]);
        assert(a@.skip(i as int).drop_first() =~= a@.skip(i + 1));
        assert(b@.skip(i as int).drop_first() =~= b@.skip(i + 1));
        if ca < cb {
            true
        } else if ca > cb {
            false
        } else {
            lex_le_from(a, b, i + 1)
        }
    }
}

/// Decide the lexicographic order of two texts.
pub fn lex_le_exec(a: &Vec<char>, b: &Vec<char>) -> (r: bool)
    ensures
        r == lex_le(a@, b@),
{
    assert(a@.skip(0) =~= a@);
    assert(b@.skip(0) =~= b@);
    lex_le_from(a, b, 0)
}

} // verus!
