//! Character-level helpers over the `char` sequence of a string: Unicode
//! whitespace trimming and ASCII case-insensitive comparison, as `str::trim`
//! and `str::eq_ignore_ascii_case` define them.

use vstd::prelude::*;

verus! {

/// `c` has the Unicode `White_Space` property (what `char::is_whitespace`
/// tests).
pub open spec fn is_white_space(c: char) -> bool {
    let u = c as u32;
    ||| 0x09 <= u <= 0x0d
    ||| u == 0x20
    ||| u == 0x85
    ||| u == 0xa0
    ||| u == 0x1680
    ||| 0x2000 <= u <= 0x200a
    ||| u == 0x2028
    ||| u == 0x2029
    ||| u == 0x202f
    ||| u == 0x205f
    ||| u == 0x3000
}

/// `s` without its leading whitespace.
pub open spec fn trim_start(s: Seq<char>) -> Seq<char>
    decreases s.len(),
{
    if s.len() > 0 && is_white_space(s[0]) {
        trim_start(s.drop_first())
    } else {
        s
    }
}

/// `s` without its trailing whitespace.
pub open spec fn trim_end(s: Seq<char>) -> Seq<char>
    decreases s.len(),
{
    if s.len() > 0 && is_white_space(s.last()) {
        trim_end(s.drop_last())
    } else {
        s
    }
}

/// `s` without leading and trailing whitespace (what `str::trim` returns).
pub open spec fn trimmed(s: Seq<char>) -> Seq<char> {
    trim_end(trim_start(s))
}

/// The code of `c` with ASCII upper-case letters mapped to lower case.
pub open spec fn ascii_lower_code(c: char) -> u32 {
    let u = c as u32;
    if 0x41 <= u <= 0x5a {
        (u + 0x20) as u32
    } else {
        u
    }
}

/// `a` and `b` are equal up to ASCII case.
pub open spec fn eq_ignore_ascii_case(a: Seq<char>, b: Seq<char>) -> bool {
    &&& a.len() == b.len()
    &&& forall|i: int| 0 <= i < a.len() ==> ascii_lower_code(a[i]) == ascii_lower_code(b[i])
}

pub fn is_white_space_char(c: char) -> (r: bool)
    ensures
        r == is_white_space(c),
{
    let u = c as u32;
    (0x09 <= u && u <= 0x0d) || u == 0x20 || u == 0x85 || u == 0xa0 || u == 0x1680 || (0x2000 <= u
        && u <= 0x200a) || u == 0x2028 || u == 0x2029 || u == 0x202f || u == 0x205f || u == 0x3000
}

fn ascii_lower(c: char) -> (r: u32)
    ensures
        r == ascii_lower_code(c),
{
    let u = c as u32;
    if 0x41 <= u && u <= 0x5a {
        u + 0x20
    } else {
        u
    }
}

/// The characters of `s`.
pub fn chars_of(s: &str) -> (r: Vec<char>)
    ensures
        r@ == s@,
{
    broadcast use vstd::string::group_string_axioms;

    let mut v: Vec<char> = Vec::new();
    for c in it: s.chars()
        invariant
            it.seq() == s@,
            v@ == s@.take(it.index() as int),
    {
        assert(s@.take(it.index() as int + 1) =~= v@.push(c));
        v.push(c);
    }
    assert(v@ =~= s@);
    v
}

proof fn lemma_trim_start(s: Seq<char>, k: int)
    requires
        0 <= k <= s.len(),
        forall|j: int| 0 <= j < k ==> is_white_space(#[trigger] s[j]),
        k == s.len() || !is_white_space(s[k]),
    ensures
        trim_start(s) == s.skip(k),
    decreases k,
{
    if k == 0 {
        assert(s.skip(0) =~= s);
    } else {
        let t = s.drop_first();
        assert forall|j: int| 0 <= j < k - 1 implies is_white_space(#[trigger] t[j]) by {
            assert(t[j] == s[j + 1]);
        }
        if k < s.len() {
            assert(t[k - 1] == s[k]);
        }
        lemma_trim_start(t, k - 1);
        assert(t.skip(k - 1) =~= s.skip(k));
        assert(is_white_space(s[0]));
    }
}

proof fn lemma_trim_end(s: Seq<char>, m: int)
    requires
        0 <= m <= s.len(),
        forall|j: int| m <= j < s.len() ==> is_white_space(#[trigger] s[j]),
        m == 0 || !is_white_space(s[m - 1]),
    ensures
        trim_end(s) == s.take(m),
    decreases s.len() - m,
{
    if m == s.len() {
        assert(s.take(m) =~= s);
    } else {
        let t = s.drop_last();
        assert(is_white_space(s[s.len() - 1]));
        assert forall|j: int| m <= j < t.len() implies is_white_space(#[trigger] t[j]) by {
            assert(t[j] == s[j]);
        }
        if m > 0 {
            assert(t[m - 1] == s[m - 1]);
        }
        lemma_trim_end(t, m);
        assert(t.take(m) =~= s.take(m));
    }
}

/// The bounds `start..end` of `v` without its leading and trailing
/// whitespace.
pub fn trim_bounds(v: &Vec<char>) -> (r: (usize, usize))
    ensures
        r.0 <= r.1 <= v@.len(),
        v@.subrange(r.0 as int, r.1 as int) == trimmed(v@),
{
    let n = v.len();
    let mut start: usize = 0;
    while start < n && is_white_space_char(v[start])
        invariant
            start <= n == v@.len(),
            forall|j: int| 0 <= j < start ==> is_white_space(#[trigger] v@[j]),
        decreases n - start,
    {
        start = start + 1;
    }
    let mut end: usize = n;
    while end > start && is_white_space_char(v[end - 1])
        invariant
            start <= end <= n == v@.len(),
            forall|j: int| end <= j < n ==> is_white_space(#[trigger] v@[j]),
        decreases end - start,
    {
        end = end - 1;
    }
    proof {
        lemma_trim_start(v@, start as int);
        let t = v@.skip(start as int);
        assert forall|j: int| end - start <= j < t.len() implies is_white_space(#[trigger] t[j]) by {
            assert(t[j] == v@[j + start]);
        }
        if end > start {
            assert(t[end - start - 1] == v@[end - 1]);
        }
        lemma_trim_end(t, end - start);
        assert(t.take(end - start) =~= v@.subrange(start as int, end as int));
    }
    (start, end)
}

/// Is `a` equal, up to ASCII case, to `b[from..to]`?
pub fn eq_ignore_ascii_case_at(a: &Vec<char>, b: &Vec<char>, from: usize, to: usize) -> (r: bool)
    requires
        from <= to <= b@.len(),
    ensures
        r == eq_ignore_ascii_case(a@, b@.subrange(from as int, to as int)),
{
    if a.len() != to - from {
        return false;
    }
    let mut i: usize = 0;
    while i < a.len()
        invariant
            i <= a@.len() == to - from,
            from <= to <= b@.len(),
            forall|j: int|
                0 <= j < i ==> ascii_lower_code(#[trigger] a@[j]) == ascii_lower_code(
                    b@[from + j],
                ),
        decreases a@.len() - i,
    {
        if ascii_lower(a[i]) != ascii_lower(b[from + i]) {
            assert(b@.subrange(from as int, to as int)[i as int] == b@[from + i]);
            return false;
        }
        i = i + 1;
    }
    assert forall|j: int| 0 <= j < a@.len() implies ascii_lower_code(a@[j]) == ascii_lower_code(
        b@.subrange(from as int, to as int)[j],
    ) by {
        assert(b@.subrange(from as int, to as int)[j] == b@[from + j]);
    }
    true
}

/// Trimming removes exactly the surrounding whitespace: a text made of
/// whitespace `pre`, a `core` that neither starts nor ends with whitespace,
/// and whitespace `post` trims to `core`.
pub proof fn lemma_trim_removes_padding(pre: Seq<char>, core: Seq<char>, post: Seq<char>)
    requires
        forall|j: int| 0 <= j < pre.len() ==> is_white_space(#[trigger] pre[j]),
        forall|j: int| 0 <= j < post.len() ==> is_white_space(#[trigger] post[j]),
        core.len() > 0 ==> !is_white_space(core[0]) && !is_white_space(core.last()),
    ensures
        trimmed(pre + core + post) == core,
{
    let s = pre + core + post;
    let k = if core.len() > 0 { pre.len() as int } else { s.len() as int };
    assert forall|j: int| 0 <= j < k implies is_white_space(#[trigger] s[j]) by {
        if j < pre.len() {
            assert(s[j] == pre[j]);
        } else {
            assert(s[j] == post[j - pre.len()]);
        }
    }
    if core.len() > 0 {
        assert(s[k] == core[0]);
    }
    lemma_trim_start(s, k);
    let t = s.skip(k);
    if core.len() > 0 {
        assert(t =~= core + post);
        let m = core.len() as int;
        assert forall|j: int| m <= j < t.len() implies is_white_space(#[trigger] t[j]) by {
            assert(t[j] == post[j - m]);
        }
        assert(t[m - 1] == core.last());
        lemma_trim_end(t, m);
        assert(t.take(m) =~= core);
    } else {
        assert(t.len() == 0);
        lemma_trim_end(t, 0);
        assert(t.take(0) =~= core);
    }
}

/// Two characters compare equal ignoring ASCII case exactly when they are
/// the same character or the two cases of one ASCII letter.
pub proof fn lemma_ascii_case_chars(c: char, d: char)
    ensures
        ascii_lower_code(c) == ascii_lower_code(d) <==> (c == d || (0x41 <= c as u32 <= 0x5a
            && d as u32 == c as u32 + 0x20) || (0x41 <= d as u32 <= 0x5a && c as u32 == d as u32
            + 0x20)),
{
}

/// Comparing texts ignoring ASCII case is an equivalence that needs equal
/// lengths and agrees with plain equality on texts without ASCII capitals.
pub proof fn lemma_ascii_case_text(a: Seq<char>, b: Seq<char>)
    ensures
        eq_ignore_ascii_case(a, a),
        eq_ignore_ascii_case(a, b) == eq_ignore_ascii_case(b, a),
        eq_ignore_ascii_case(a, b) ==> a.len() == b.len(),
        (forall|i: int| 0 <= i < a.len() ==> !(0x41 <= #[trigger] a[i] as u32 <= 0x5a)) && (forall|
            i: int,
        |
            0 <= i < b.len() ==> !(0x41 <= #[trigger] b[i] as u32 <= 0x5a)) ==> (eq_ignore_ascii_case(
            a,
            b,
        ) <==> a == b),
{
    if (forall|i: int| 0 <= i < a.len() ==> !(0x41 <= #[trigger] a[i] as u32 <= 0x5a)) && (forall|
        i: int,
    |
        0 <= i < b.len() ==> !(0x41 <= #[trigger] b[i] as u32 <= 0x5a)) {
        if eq_ignore_ascii_case(a, b) {
            assert forall|i: int| 0 <= i < a.len() implies a[i] == b[i] by {
                assert(ascii_lower_code(a[i]) == ascii_lower_code(b[i]));
                lemma_ascii_case_chars(a[i], b[i]);
            }
            assert(a =~= b);
        }
    }
}

} // verus!
