//! Character-level operations on text: whitespace, trimming, substring
//! search and removal of every occurrence of a pattern.
use vstd::prelude::*;

verus! {

/// The Unicode `White_Space` property, which is what `char::is_whitespace`
/// and `str::trim` go by.
pub open spec fn is_white_space(c: char) -> bool {
    let u = c as u32;
    (0x09 <= u && u <= 0x0d) || u == 0x20 || u == 0x85 || u == 0xa0 || u == 0x1680 || (0x2000
        <= u && u <= 0x200a) || u == 0x2028 || u == 0x2029 || u == 0x202f || u == 0x205f || u
        == 0x3000
}

/// Whether `c` is a white-space character.
pub fn is_white_space_char(c: char) -> (r: bool)
    ensures
        r == is_white_space(c),
{
    let u = c as u32;
    (0x09 <= u && u <= 0x0d) || u == 0x20 || u == 0x85 || u == 0xa0 || u == 0x1680 || (0x2000
        <= u && u <= 0x200a) || u == 0x2028 || u == 0x2029 || u == 0x202f || u == 0x205f || u
        == 0x3000
}

/// The characters of `s`, in order.
pub fn chars_of(s: &str) -> (r: Vec<char>)
    ensures
        r@ == s@,
{
    let mut v: Vec<char> = Vec::new();
    for c in it: s.chars()
        invariant
            v@ == it.seq().take(it.index() as int),
    {
        v.push(c);
    }
    v
}

/// `s` without its trailing white space.
pub open spec fn trim_end(s: Seq<char>) -> Seq<char>
    decreases s.len(),
{
    if s.len() > 0 && is_white_space(s.last()) {
        trim_end(s.drop_last())
    } else {
        s
    }
}

/// `s` without its leading white space.
pub open spec fn trim_start(s: Seq<char>) -> Seq<char>
    decreases s.len(),
{
    if s.len() > 0 && is_white_space(s[0]) {
        trim_start(s.drop_first())
    } else {
        s
    }
}

/// `s` without its leading and trailing white space, as `str::trim` gives it.
pub open spec fn trimmed(s: Seq<char>) -> Seq<char> {
    trim_start(trim_end(s))
}

/// Whether `p` occurs in `s` at position `i`.
pub open spec fn occurs_at(s: Seq<char>, p: Seq<char>, i: int) -> bool {
    0 <= i && i + p.len() <= s.len() && s.subrange(i, i + p.len()) == p
}

/// Whether `p` occurs anywhere in `s`.
pub open spec fn contains(s: Seq<char>, p: Seq<char>) -> bool {
    exists|i: int| occurs_at(s, p, i)
}

/// `s` with every occurrence of a non-empty `p` removed, scanning from the
/// left and never letting two removed occurrences overlap, as
/// `str::replace(p, "")` does.
pub open spec fn remove_all(s: Seq<char>, p: Seq<char>) -> Seq<char>
    decreases s.len(),
{
    if p.len() == 0 || s.len() < p.len() {
        s
    } else if s.take(p.len() as int) == p {
        remove_all(s.skip(p.len() as int), p)
    } else {
        seq![s[0]] + remove_all(s.skip(1), p)
    }
}

proof fn lemma_trim_end_prefix(s: Seq<char>, hi: int)
    requires
        0 <= hi <= s.len(),
        forall|k: int| hi <= k < s.len() ==> is_white_space(#[trigger] s[k]),
    ensures
        trim_end(s) == trim_end(s.take(hi)),
    decreases s.len() - hi,
{
    if hi < s.len() {
        assert(s.drop_last().take(hi) =~= s.take(hi));
        lemma_trim_end_prefix(s.drop_last(), hi);
    } else {
        assert(s.take(hi) =~= s);
    }
}

proof fn lemma_trim_start_suffix(s: Seq<char>, lo: int)
    requires
        0 <= lo <= s.len(),
        forall|k: int| 0 <= k < lo ==> is_white_space(#[trigger] s[k]),
    ensures
        trim_start(s) == trim_start(s.skip(lo)),
    decreases lo,
{
    if lo > 0 {
        assert(s.drop_first().skip(lo - 1) =~= s.skip(lo));
        lemma_trim_start_suffix(s.drop_first(), lo - 1);
    } else {
        assert(s.skip(0) =~= s);
    }
}

/// `s` without its leading and trailing white space.
pub fn trim(s: &str) -> (r: String)
    ensures
        r@ == trimmed(s@),
{
    let cs = chars_of(s);
    let mut hi: usize = cs.len();
    while hi > 0 && is_white_space_char(cs[hi - 1])
        invariant
            cs@ == s@,
            hi <= cs.len(),
            forall|k: int| hi <= k < cs.len() ==> is_white_space(#[trigger] cs@[k]),
        decreases hi,
    {
        hi = hi - 1;
    }
    proof {
        lemma_trim_end_prefix(s@, hi as int);
        if hi > 0 {
            assert(s@.take(hi as int).last() == s@[hi - 1]);
        }
        assert(trim_end(s@.take(hi as int)) == s@.take(hi as int));
    }
    let ghost kept = s@.take(hi as int);
    let mut lo: usize = 0;
    while lo < hi && is_white_space_char(cs[lo])
        invariant
            cs@ == s@,
            hi <= cs.len(),
            lo <= hi,
            kept == s@.take(hi as int),
            forall|k: int| 0 <= k < lo ==> is_white_space(#[trigger] cs@[k]),
        decreases hi - lo,
    {
        lo = lo + 1;
    }
    proof {
        assert forall|k: int| 0 <= k < lo implies is_white_space(#[trigger] kept[k]) by {
            assert(kept[k] == cs@[k]);
        }
        lemma_trim_start_suffix(kept, lo as int);
        assert(kept.skip(lo as int) =~= s@.subrange(lo as int, hi as int));
        if lo < hi {
            assert(kept.skip(lo as int)[0] == s@[lo as int]);
        }
    }
    String::from_str(s.substring_char(lo, hi))
}

/// `trim_end(s)` is a prefix of `s`, empty or ending in a character that is
/// not white space.
proof fn lemma_trim_end_shape(s: Seq<char>)
    ensures
        trim_end(s) == s.take(trim_end(s).len() as int),
        trim_end(s).len() <= s.len(),
        trim_end(s).len() == 0 || !is_white_space(trim_end(s).last()),
    decreases s.len(),
{
    if s.len() > 0 && is_white_space(s.last()) {
        lemma_trim_end_shape(s.drop_last());
        assert(s.drop_last().take(trim_end(s).len() as int) =~= s.take(
            trim_end(s).len() as int,
        ));
    } else {
        assert(s.take(s.len() as int) =~= s);
    }
}

/// `trim_start(s)` is a suffix of `s`, empty or starting with a character
/// that is not white space.
proof fn lemma_trim_start_shape(s: Seq<char>)
    ensures
        trim_start(s) == s.skip(s.len() - trim_start(s).len()),
        trim_start(s).len() <= s.len(),
        trim_start(s).len() == 0 || !is_white_space(trim_start(s)[0]),
    decreases s.len(),
{
    if s.len() > 0 && is_white_space(s[0]) {
        lemma_trim_start_shape(s.drop_first());
        let k = s.len() - trim_start(s).len();
        assert(s.drop_first().skip(k - 1) =~= s.skip(k));
    } else {
        assert(s.skip(0) =~= s);
    }
}

/// Trimming twice is trimming once.
pub proof fn lemma_trimmed_idempotent(s: Seq<char>)
    ensures
        trimmed(trimmed(s)) == trimmed(s),
{
    let u = trim_end(s);
    let t = trim_start(u);
    lemma_trim_end_shape(s);
    lemma_trim_start_shape(u);
    if t.len() > 0 {
        assert(t.last() == u.last());
        assert(trim_end(t) == t);
        assert(trim_start(t) == t);
    } else {
        assert(trim_end(t) == t);
        assert(trim_start(t) == t);
    }
}

/// Whether `p` occurs in `cs` at position `i`.
fn occurs_at_exec(cs: &Vec<char>, p: &Vec<char>, i: usize) -> (r: bool)
    requires
        i + p.len() <= cs.len(),
    ensures
        r == occurs_at(cs@, p@, i as int),
{
    let mut k: usize = 0;
    while k < p.len()
        invariant
            i + p.len() <= cs.len(),
            k <= p.len(),
            forall|j: int| 0 <= j < k ==> cs@[i + j] == p@[j],
        decreases p.len() - k,
    {
        if cs[i + k] != p[k] {
            assert(cs@.subrange(i as int, i + p.len())[k as int] != p@[k as int]);
            return false;
        }
        k = k + 1;
    }
    assert(cs@.subrange(i as int, i + p.len()) =~= p@);
    true
}

/// Whether `pattern` occurs anywhere in `s`.
pub fn contains_text(s: &str, pattern: &str) -> (r: bool)
    ensures
        r == contains(s@, pattern@),
{
    let cs = chars_of(s);
    let p = chars_of(pattern);
    let mut i: usize = 0;
    while i <= cs.len() && p.len() <= cs.len() - i
        invariant
            cs@ == s@,
            p@ == pattern@,
            i <= cs.len(),
            forall|j: int| 0 <= j < i ==> !occurs_at(s@, pattern@, j),
        decreases cs.len() - i,
    {
        if p.len() == 0 {
            assert(cs@.subrange(i as int, i as int) =~= p@);
        }
        if occurs_at_exec(&cs, &p, i) {
            return true;
        }
        i = i + 1;
    }
    assert forall|j: int| occurs_at(s@, pattern@, j) implies false by {
        if j >= i {
            assert(j + p.len() <= cs.len());
        }
    }
    false
}

/// `s` with every occurrence of `pattern` removed, from the left and without
/// overlap.
pub fn remove_all_text(s: &str, pattern: &str) -> (r: String)
    requires
        pattern@.len() > 0,
    ensures
        r@ == remove_all(s@, pattern@),
{
    let cs = chars_of(s);
    let p = chars_of(pattern);
    let n = cs.len();
    let plen = p.len();
    let mut out = String::new();
    let mut seg: usize = 0;
    let mut i: usize = 0;
    proof {
        assert(s@.skip(0) =~= s@);
        assert(s@.subrange(0, 0) =~= Seq::<char>::empty());
        assert(out@ + s@.subrange(0, 0) + remove_all(s@.skip(0), p@) =~= remove_all(s@, p@));
    }
    while plen <= n - i
        invariant
            cs@ == s@,
            p@ == pattern@,
            n == cs.len(),
            plen == p.len(),
            plen > 0,
            seg <= i <= n,
            out@ + s@.subrange(seg as int, i as int) + remove_all(s@.skip(i as int), p@)
                == remove_all(s@, p@),
        decreases n - i,
    {
        let ghost rest = s@.skip(i as int);
        assert(rest.take(plen as int) =~= s@.subrange(i as int, i + plen));
        if occurs_at_exec(&cs, &p, i) {
            assert(rest.skip(plen as int) =~= s@.skip(i + plen));
            out.append(s.substring_char(seg, i));
            i = i + plen;
            seg = i;
            assert(s@.subrange(seg as int, i as int) =~= Seq::<char>::empty());
            assert(out@ + s@.subrange(seg as int, i as int) =~= out@);
        } else {
            assert(rest.skip(1) =~= s@.skip(i + 1));
            assert(rest[0] == s@[i as int]);
            assert(s@.subrange(seg as int, i as int) + seq![s@[i as int]] =~= s@.subrange(
                seg as int,
                i + 1,
            ));
            i = i + 1;
        }
    }
    assert(remove_all(s@.skip(i as int), p@) == s@.skip(i as int));
    assert(s@.subrange(seg as int, i as int) + s@.skip(i as int) =~= s@.subrange(
        seg as int,
        n as int,
    ));
    out.append(s.substring_char(seg, n));
    out
}

} // verus!
