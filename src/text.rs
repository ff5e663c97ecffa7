//! Character-level helpers on which the URL decomposition is built.
use vstd::prelude::*;

verus! {

/// `s` with every occurrence of `w` removed, scanning from the left and
/// never letting two removed occurrences overlap.
pub open spec fn without(s: Seq<char>, w: Seq<char>) -> Seq<char>
    decreases s.len(),
{
    if s.len() == 0 {
        s
    } else if 0 < w.len() <= s.len() && s.subrange(0, w.len() as int) == w {
        without(s.subrange(w.len() as int, s.len() as int), w)
    } else {
        seq![s[0]] + without(s.drop_first(), w)
    }
}

/// Removing a word that holds a character absent from `s` leaves `s` as it is.
pub proof fn lemma_without_absent(s: Seq<char>, w: Seq<char>, k: int)
    requires
        0 <= k < w.len(),
        forall|j: int| 0 <= j < s.len() ==> s[j] != w[k],
    ensures
        without(s, w) == s,
    decreases s.len(),
{
    if s.len() > 0 {
        if w.len() <= s.len() && s.subrange(0, w.len() as int) == w {
            assert(s.subrange(0, w.len() as int)[k] == s[k]);
        }
        lemma_without_absent(s.drop_first(), w, k);
        assert(seq![s[0]] + s.drop_first() =~= s);
    }
}

/// A leading occurrence of `w` is removed, and the rest is scanned on its own.
pub proof fn lemma_without_leading(w: Seq<char>, t: Seq<char>)
    requires
        w.len() > 0,
    ensures
        without(w + t, w) == without(t, w),
{
    let s = w + t;
    assert(s.subrange(0, w.len() as int) =~= w);
    assert(s.subrange(w.len() as int, s.len() as int) =~= t);
}

/// Whether `w` occurs in `s` at position `i`.
pub open spec fn occurs_at(s: Seq<char>, w: Seq<char>, i: int) -> bool {
    0 <= i && i + w.len() <= s.len() && s.subrange(i, i + w.len()) == w
}

/// Tells whether `w` occurs in `v` at position `i`.
pub fn occurs_at_exec(v: &Vec<char>, w: &Vec<char>, i: usize) -> (r: bool)
    requires
        i <= v.len(),
    ensures
        r == occurs_at(v@, w@, i as int),
{
    if w.len() > v.len() - i {
        return false;
    }
    let mut k: usize = 0;
    while k < w.len()
        invariant
            k <= w.len(),
            i + w.len() <= v.len(),
            forall|j: int| 0 <= j < k ==> v@[i + j] == w@[j],
        decreases w.len() - k,
    {
        if v[i + k] != w[k] {
            assert(v@.subrange(i as int, i + w.len())[k as int] != w@[k as int]);
            return false;
        }
        k = k + 1;
    }
    assert(v@.subrange(i as int, i + w.len()) =~= w@);
    true
}

/// Removes from `v` every occurrence of `w`, leftmost first and without
/// overlap, as `str::replace(w, "")` does.
pub fn remove_all(v: &Vec<char>, w: &Vec<char>) -> (r: Vec<char>)
    requires
        w.len() > 0,
    ensures
        r@ == without(v@, w@),
{
    let mut out: Vec<char> = Vec::new();
    let mut i: usize = 0;
    assert(v@.subrange(0, v.len() as int) =~= v@);
    assert(out@ + without(v@, w@) =~= without(v@, w@));
    while i < v.len()
        invariant
            i <= v.len(),
            w.len() > 0,
            without(v@, w@) == out@ + without(v@.subrange(i as int, v.len() as int), w@),
        decreases v.len() - i,
    {
        let ghost rest = v@.subrange(i as int, v.len() as int);
        if occurs_at_exec(v, w, i) {
            assert(rest.subrange(0, w.len() as int) =~= v@.subrange(i as int, i + w.len()));
            assert(rest.subrange(w.len() as int, rest.len() as int)
                =~= v@.subrange(i + w.len(), v.len() as int));
            i = i + w.len();
        } else {
            proof {
                if w.len() <= rest.len() {
                    assert(rest.subrange(0, w.len() as int)
                        =~= v@.subrange(i as int, i + w.len()));
                }
            }
            assert(rest.drop_first() =~= v@.subrange(i + 1, v.len() as int));
            let ghost before = out@;
            out.push(v[i]);
            assert(before + (seq![rest[0]] + without(rest.drop_first(), w@))
                =~= out@ + without(rest.drop_first(), w@));
            i = i + 1;
        }
    }
    assert(v@.subrange(i as int, v.len() as int) =~= Seq::<char>::empty());
    assert(out@ + Seq::<char>::empty() =~= out@);
    out
}

/// Relies on `String::push`: appends the one character to the end of the string.
#[verifier::external_body]
fn push_char(s: &mut String, c: char)
    ensures
        final(s)@ == old(s)@.push(c),
{
    s.push(c)
}

/// Relies on `String::push_str`: appends the text to the end of the string.
#[verifier::external_body]
pub(crate) fn push_text(s: &mut String, t: &str)
    ensures
        final(s)@ == old(s)@ + t@,
{
    s.push_str(t)
}

/// The string made of the characters of `v`, in order.
pub fn string_of(v: &Vec<char>) -> (r: String)
    ensures
        r@ == v@,
{
    let mut r = String::new();
    let mut i: usize = 0;
    while i < v.len()
        invariant
            i <= v.len(),
            r@ == v@.subrange(0, i as int),
        decreases v.len() - i,
    {
        push_char(&mut r, v[i]);
        assert(r@ =~= v@.subrange(0, i + 1));
        i = i + 1;
    }
    assert(v@.subrange(0, v.len() as int) =~= v@);
    r
}

} // verus!
