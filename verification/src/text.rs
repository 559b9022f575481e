//! Character-level string helpers shared by the parser and the lowering
//! phases, each stated over the `Seq<char>` view of the strings involved.
use vstd::prelude::*;

verus! {

/// `prefix` is a prefix of `s`.
pub open spec fn is_prefix(prefix: Seq<char>, s: Seq<char>) -> bool {
    prefix.len() <= s.len() && s.subrange(0, prefix.len() as int) == prefix
}

/// `suffix` is a suffix of `s`.
pub open spec fn is_suffix(suffix: Seq<char>, s: Seq<char>) -> bool {
    suffix.len() <= s.len() && s.subrange(s.len() - suffix.len(), s.len() as int) == suffix
}

/// `sub` occurs in `s` starting at position `i`.
pub open spec fn occurs_at(s: Seq<char>, sub: Seq<char>, i: int) -> bool {
    0 <= i && i + sub.len() <= s.len() && s.subrange(i, i + sub.len()) == sub
}

/// `sub` occurs somewhere in `s`.
pub open spec fn has_sub(s: Seq<char>, sub: Seq<char>) -> bool {
    exists|i: int| occurs_at(s, sub, i)
}

/// The decimal digit character for `d < 10`.
pub open spec fn digit_char(d: nat) -> char {
    if d == 0 { '0' }
    else if d == 1 { '1' }
    else if d == 2 { '2' }
    else if d == 3 { '3' }
    else if d == 4 { '4' }
    else if d == 5 { '5' }
    else if d == 6 { '6' }
    else if d == 7 { '7' }
    else if d == 8 { '8' }
    else { '9' }
}

/// The decimal rendering of `n`, without leading zeros.
pub open spec fn decimal(n: nat) -> Seq<char>
    decreases n,
{
    if n < 10 {
        seq![digit_char(n)]
    } else {
        decimal(n / 10).push(digit_char(n % 10))
    }
}

/// `String::push`: appends one character.
#[verifier::external_body]
pub fn push_char(s: &mut String, c: char)
    ensures
        final(s)@ == old(s)@.push(c),
{
    s.push(c);
}

/// An owned copy of `s`.
pub fn owned(s: &str) -> (r: String)
    ensures
        r@ == s@,
{
    String::from_str(s)
}

/// Concatenation of two strings into a new one.
pub fn concat2(a: &str, b: &str) -> (r: String)
    ensures
        r@ == a@ + b@,
{
    let mut r = String::from_str(a);
    r.append(b);
    r
}

/// Concatenation of three strings into a new one.
pub fn concat3(a: &str, b: &str, c: &str) -> (r: String)
    ensures
        r@ == a@ + b@ + c@,
{
    let mut r = String::from_str(a);
    r.append(b);
    r.append(c);
    r
}

/// The characters of `s`, in order.
pub fn chars_of(s: &str) -> (v: Vec<char>)
    ensures
        v@ == s@,
{
    let n = s.unicode_len();
    let mut v: Vec<char> = Vec::new();
    let mut i: usize = 0;
    while i < n
        invariant
            n == s@.len(),
            i <= n,
            v@ == s@.subrange(0, i as int),
        decreases n - i,
    {
        v.push(s.get_char(i));
        i = i + 1;
    }
    assert(s@.subrange(0, n as int) == s@);
    v
}

/// A string holding exactly the characters of `v`.
pub fn string_of(v: &Vec<char>) -> (s: String)
    ensures
        s@ == v@,
{
    let mut s = String::new();
    let mut i: usize = 0;
    while i < v.len()
        invariant
            i <= v@.len(),
            s@ == v@.subrange(0, i as int),
        decreases v@.len() - i,
    {
        push_char(&mut s, v[i]);
        assert(v@.subrange(0, i + 1) == v@.subrange(0, i as int).push(v@[i as int]));
        i = i + 1;
    }
    assert(v@.subrange(0, v@.len() as int) == v@);
    s
}

/// Whether the characters of `a` from `start` on begin with all of `b`.
fn chars_match_at(a: &Vec<char>, start: usize, b: &Vec<char>) -> (r: bool)
    requires
        start + b@.len() <= a@.len(),
    ensures
        r == (a@.subrange(start as int, start + b@.len()) == b@),
{
    let mut k: usize = 0;
    while k < b.len()
        invariant
            start + b@.len() <= a.len(),
            k <= b@.len(),
            forall|j: int| 0 <= j < k ==> a@[start + j] == b@[j],
        decreases b@.len() - k,
    {
        if a[start + k] != b[k] {
            assert(a@.subrange(start as int, start + b@.len())[k as int] != b@[k as int]);
            return false;
        }
        k = k + 1;
    }
    assert(a@.subrange(start as int, start + b@.len()) =~= b@);
    true
}

/// String equality.
pub fn str_eq(a: &str, b: &str) -> (r: bool)
    ensures
        r == (a@ == b@),
{
    let va = chars_of(a);
    let vb = chars_of(b);
    if va.len() != vb.len() {
        return false;
    }
    let r = chars_match_at(&va, 0, &vb);
    assert(va@.subrange(0, va@.len() as int) == va@);
    r
}

/// Whether `prefix` is a prefix of `s`.
pub fn starts_with(s: &str, prefix: &str) -> (r: bool)
    ensures
        r == is_prefix(prefix@, s@),
{
    let vs = chars_of(s);
    let vp = chars_of(prefix);
    if vp.len() > vs.len() {
        return false;
    }
    chars_match_at(&vs, 0, &vp)
}

/// Whether `suffix` is a suffix of `s`.
pub fn ends_with(s: &str, suffix: &str) -> (r: bool)
    ensures
        r == is_suffix(suffix@, s@),
{
    let vs = chars_of(s);
    let vp = chars_of(suffix);
    if vp.len() > vs.len() {
        return false;
    }
    chars_match_at(&vs, vs.len() - vp.len(), &vp)
}

/// Whether `c` occurs in `s`.
pub fn contains_char(s: &str, c: char) -> (r: bool)
    ensures
        r == s@.contains(c),
{
    let v = chars_of(s);
    let mut i: usize = 0;
    while i < v.len()
        invariant
            v@ == s@,
            i <= v@.len(),
            forall|j: int| 0 <= j < i ==> v@[j] != c,
        decreases v@.len() - i,
    {
        if v[i] == c {
            return true;
        }
        i = i + 1;
    }
    false
}

/// Whether `sub` occurs in `s`.
pub fn contains_str(s: &str, sub: &str) -> (r: bool)
    ensures
        r == has_sub(s@, sub@),
{
    let vs = chars_of(s);
    let vb = chars_of(sub);
    if vb.len() > vs.len() {
        assert forall|i: int| !occurs_at(s@, sub@, i) by {}
        return false;
    }
    let last = vs.len() - vb.len();
    let mut i: usize = 0;
    let mut done = false;
    while !done
        invariant
            vs@ == s@,
            vb@ == sub@,
            last == vs@.len() - vb@.len(),
            i <= last,
            done ==> i == last,
            forall|j: int| 0 <= j < i ==> !occurs_at(s@, sub@, j),
            done ==> !occurs_at(s@, sub@, last as int),
        decreases last - i, (if done { 0int } else { 1int }),
    {
        if chars_match_at(&vs, i, &vb) {
            assert(occurs_at(s@, sub@, i as int));
            return true;
        }
        if i == last {
            done = true;
        } else {
            i = i + 1;
        }
    }
    assert forall|j: int| !occurs_at(s@, sub@, j) by {
        if 0 <= j && j + sub@.len() <= s@.len() {
            assert(j <= last);
        }
    }
    false
}

/// The characters of `s` in `[from, to)` as a new string.
pub fn substring(s: &str, from: usize, to: usize) -> (r: String)
    requires
        from <= to <= s@.len(),
    ensures
        r@ == s@.subrange(from as int, to as int),
{
    String::from_str(s.substring_char(from, to))
}

/// The decimal digit character for `d`.
pub fn digit(d: usize) -> (c: char)
    requires
        d < 10,
    ensures
        c == digit_char(d as nat),
{
    if d == 0 { '0' }
    else if d == 1 { '1' }
    else if d == 2 { '2' }
    else if d == 3 { '3' }
    else if d == 4 { '4' }
    else if d == 5 { '5' }
    else if d == 6 { '6' }
    else if d == 7 { '7' }
    else if d == 8 { '8' }
    else { '9' }
}

/// The decimal rendering of `n`.
pub fn usize_to_string(n: usize) -> (s: String)
    ensures
        s@ == decimal(n as nat),
    decreases n,
{
    if n < 10 {
        let mut s = String::new();
        push_char(&mut s, digit(n));
        s
    } else {
        let mut s = usize_to_string(n / 10);
        push_char(&mut s, digit(n % 10));
        s
    }
}


// ------------------------------------------------------------ searching

/// The first position at or after `i` where `sub` occurs in `s`.
pub open spec fn find_from(s: Seq<char>, sub: Seq<char>, i: int) -> Option<int>
    decreases s.len() + 1 - i,
{
    if i < 0 || i + sub.len() > s.len() {
        None
    } else if occurs_at(s, sub, i) {
        Some(i)
    } else {
        find_from(s, sub, i + 1)
    }
}

/// The first position where `sub` occurs in `s`.
pub open spec fn first_index(s: Seq<char>, sub: Seq<char>) -> Option<int> {
    find_from(s, sub, 0)
}

/// The last position at or before `i` where `sub` occurs in `s`.
pub open spec fn rfind_upto(s: Seq<char>, sub: Seq<char>, i: int) -> Option<int>
    decreases i + 1,
{
    if i < 0 {
        None
    } else if occurs_at(s, sub, i) {
        Some(i)
    } else {
        rfind_upto(s, sub, i - 1)
    }
}

/// The last position where `sub` occurs in `s`.
pub open spec fn last_index(s: Seq<char>, sub: Seq<char>) -> Option<int> {
    rfind_upto(s, sub, s.len() - sub.len())
}

pub proof fn lemma_find_from(s: Seq<char>, sub: Seq<char>, i: int)
    requires
        0 <= i,
    ensures
        match find_from(s, sub, i) {
            Some(k) => i <= k && occurs_at(s, sub, k) && forall|j: int|
                i <= j < k ==> !#[trigger] occurs_at(s, sub, j),
            None => forall|j: int| i <= j ==> !#[trigger] occurs_at(s, sub, j),
        },
    decreases s.len() + 1 - i,
{
    if i + sub.len() <= s.len() && !occurs_at(s, sub, i) {
        lemma_find_from(s, sub, i + 1);
    }
}

pub proof fn lemma_first_index(s: Seq<char>, sub: Seq<char>)
    ensures
        match first_index(s, sub) {
            Some(k) => occurs_at(s, sub, k) && forall|j: int|
                0 <= j < k ==> !#[trigger] occurs_at(s, sub, j),
            None => !has_sub(s, sub),
        },
{
    lemma_find_from(s, sub, 0);
}

pub proof fn lemma_rfind_upto(s: Seq<char>, sub: Seq<char>, i: int)
    ensures
        match rfind_upto(s, sub, i) {
            Some(k) => k <= i && occurs_at(s, sub, k) && forall|j: int|
                k < j <= i ==> !#[trigger] occurs_at(s, sub, j),
            None => forall|j: int| j <= i ==> !#[trigger] occurs_at(s, sub, j),
        },
    decreases i + 1,
{
    if i >= 0 && !occurs_at(s, sub, i) {
        lemma_rfind_upto(s, sub, i - 1);
    }
}

pub proof fn lemma_last_index(s: Seq<char>, sub: Seq<char>)
    ensures
        match last_index(s, sub) {
            Some(k) => occurs_at(s, sub, k) && forall|j: int|
                k < j ==> !#[trigger] occurs_at(s, sub, j),
            None => !has_sub(s, sub),
        },
{
    lemma_rfind_upto(s, sub, s.len() - sub.len());
}

/// The part of `s` before the first `sep`, or all of `s`.
pub open spec fn before_first(s: Seq<char>, sep: Seq<char>) -> Seq<char> {
    match first_index(s, sep) {
        Some(i) => s.take(i),
        None => s,
    }
}

/// The part of `s` after the last `sep`, or all of `s`.
pub open spec fn after_last(s: Seq<char>, sep: Seq<char>) -> Seq<char> {
    match last_index(s, sep) {
        Some(i) => s.skip(i + sep.len()),
        None => s,
    }
}

/// `s` with every trailing repetition of `p` removed.
pub open spec fn trim_end(s: Seq<char>, p: Seq<char>) -> Seq<char>
    decreases s.len(),
{
    if p.len() > 0 && is_suffix(p, s) {
        trim_end(s.take(s.len() - p.len()), p)
    } else {
        s
    }
}

/// The pieces of `s` between the occurrences of `sep`, left to right.
pub open spec fn split_on(s: Seq<char>, sep: Seq<char>) -> Seq<Seq<char>>
    decreases s.len(),
{
    match first_index(s, sep) {
        Some(i) => if sep.len() > 0 && 0 <= i && i + sep.len() <= s.len() {
            seq![s.take(i)] + split_on(s.skip(i + sep.len()), sep)
        } else {
            seq![s]
        },
        None => seq![s],
    }
}

/// `s` with each occurrence of `from`, left to right, replaced by `to`.
pub open spec fn replace_all(s: Seq<char>, from: Seq<char>, to: Seq<char>) -> Seq<char>
    decreases s.len(),
{
    match first_index(s, from) {
        Some(i) => if from.len() > 0 && 0 <= i && i + from.len() <= s.len() {
            s.take(i) + to + replace_all(s.skip(i + from.len()), from, to)
        } else {
            s
        },
        None => s,
    }
}

/// The first position at or after `from` where `vb` occurs in `va`.
fn find_in(va: &Vec<char>, vb: &Vec<char>, from: usize) -> (r: Option<usize>)
    requires
        from <= va@.len(),
    ensures
        match r {
            Some(i) => find_from(va@, vb@, from as int) == Some(i as int),
            None => find_from(va@, vb@, from as int) is None,
        },
{
    if vb.len() > va.len() - from {
        return None;
    }
    let last = va.len() - vb.len();
    let mut i: usize = from;
    loop
        invariant
            from <= i,
            last == va@.len() - vb@.len(),
            last <= va@.len(),
            i <= last,
            find_from(va@, vb@, from as int) == find_from(va@, vb@, i as int),
        decreases last - i,
    {
        if chars_match_at(va, i, vb) {
            return Some(i);
        }
        if i == last {
            assert(find_from(va@, vb@, i + 1) is None);
            return None;
        }
        i = i + 1;
    }
}

/// The last position where `vb` occurs in `va`.
fn rfind_in(va: &Vec<char>, vb: &Vec<char>) -> (r: Option<usize>)
    ensures
        match r {
            Some(i) => last_index(va@, vb@) == Some(i as int),
            None => last_index(va@, vb@) is None,
        },
{
    if vb.len() > va.len() {
        return None;
    }
    let mut i: usize = va.len() - vb.len();
    loop
        invariant
            i + vb@.len() <= va@.len(),
            last_index(va@, vb@) == rfind_upto(va@, vb@, i as int),
        decreases i,
    {
        if chars_match_at(va, i, vb) {
            return Some(i);
        }
        if i == 0 {
            assert(rfind_upto(va@, vb@, -1) is None);
            return None;
        }
        i = i - 1;
    }
}

/// The slice `va[from..to]` as a string.
fn string_of_range(va: &Vec<char>, from: usize, to: usize) -> (s: String)
    requires
        from <= to <= va@.len(),
    ensures
        s@ == va@.subrange(from as int, to as int),
{
    let mut s = String::new();
    let mut i: usize = from;
    while i < to
        invariant
            from <= i <= to,
            to <= va@.len(),
            s@ == va@.subrange(from as int, i as int),
        decreases to - i,
    {
        push_char(&mut s, va[i]);
        assert(va@.subrange(from as int, i + 1) == va@.subrange(from as int, i as int).push(
            va@[i as int],
        ));
        i = i + 1;
    }
    s
}

/// `str::split(sep).next()`: the part of `s` before the first `sep`.
pub fn before_first_str(s: &str, sep: &str) -> (r: String)
    ensures
        r@ == before_first(s@, sep@),
{
    let va = chars_of(s);
    let vb = chars_of(sep);
    match find_in(&va, &vb, 0) {
        Some(i) => {
            proof {
                lemma_find_from(s@, sep@, 0);
            }
            string_of_range(&va, 0, i)
        },
        None => owned(s),
    }
}

/// `str::rsplit(sep).next()`: the part of `s` after the last `sep`.
pub fn after_last_str(s: &str, sep: &str) -> (r: String)
    ensures
        r@ == after_last(s@, sep@),
{
    let va = chars_of(s);
    let vb = chars_of(sep);
    match rfind_in(&va, &vb) {
        Some(i) => {
            proof {
                lemma_last_index(s@, sep@);
                assert(occurs_at(va@, vb@, i as int));
                assert(i + vb@.len() <= va@.len());
                assert(i + vb.len() <= va.len());
            }
            string_of_range(&va, i + vb.len(), va.len())
        },
        None => owned(s),
    }
}

/// `str::rsplit_once(sep)`: the parts of `s` before and after its last
/// `sep`, if it has one.
pub fn rsplit_once_str(s: &str, sep: &str) -> (r: Option<(String, String)>)
    ensures
        match r {
            Some((a, b)) => last_index(s@, sep@) matches Some(i) && a@ == s@.take(i) && b@
                == s@.skip(i + sep@.len()),
            None => last_index(s@, sep@) is None,
        },
{
    let va = chars_of(s);
    let vb = chars_of(sep);
    match rfind_in(&va, &vb) {
        Some(i) => {
            proof {
                lemma_last_index(s@, sep@);
                assert(occurs_at(va@, vb@, i as int));
                assert(i + vb@.len() <= va@.len());
                assert(i + vb.len() <= va.len());
            }
            let a = string_of_range(&va, 0, i);
            let b = string_of_range(&va, i + vb.len(), va.len());
            Some((a, b))
        },
        None => None,
    }
}

/// `str::strip_prefix`.
pub fn strip_prefix_str(s: &str, prefix: &str) -> (r: Option<String>)
    ensures
        match r {
            Some(rest) => is_prefix(prefix@, s@) && rest@ == s@.skip(prefix@.len() as int),
            None => !is_prefix(prefix@, s@),
        },
{
    if starts_with(s, prefix) {
        let n = s.unicode_len();
        let p = prefix.unicode_len();
        Some(substring(s, p, n))
    } else {
        None
    }
}

/// `str::strip_suffix`.
pub fn strip_suffix_str(s: &str, suffix: &str) -> (r: Option<String>)
    ensures
        match r {
            Some(rest) => is_suffix(suffix@, s@) && rest@ == s@.take(s@.len() - suffix@.len()),
            None => !is_suffix(suffix@, s@),
        },
{
    if ends_with(s, suffix) {
        let n = s.unicode_len();
        let p = suffix.unicode_len();
        Some(substring(s, 0, n - p))
    } else {
        None
    }
}

/// `str::trim_end_matches` with a string pattern.
pub fn trim_end_str(s: &str, p: &str) -> (r: String)
    ensures
        r@ == trim_end(s@, p@),
{
    let va = chars_of(s);
    let vp = chars_of(p);
    let pl = vp.len();
    let mut end: usize = va.len();
    if pl == 0 {
        return owned(s);
    }
    assert(s@.take(va@.len() as int) =~= s@);
    while end >= pl && chars_match_at(&va, end - pl, &vp)
        invariant
            pl == p@.len(),
            vp@ == p@,
            pl > 0,
            end <= va@.len(),
            va@ == s@,
            trim_end(s@, p@) == trim_end(s@.take(end as int), p@),
        decreases end,
    {
        proof {
            let t = s@.take(end as int);
            assert(t.subrange(t.len() - p@.len(), t.len() as int) =~= va@.subrange(
                end - pl,
                end - pl + p@.len(),
            ));
            assert(t.take(t.len() - p@.len()) =~= s@.take(end - pl));
        }
        end = end - pl;
    }
    proof {
        let t = s@.take(end as int);
        if end >= pl {
            assert(t.subrange(t.len() - p@.len(), t.len() as int) =~= va@.subrange(
                end - pl,
                end - pl + p@.len(),
            ));
        }
        assert(s@.take(va@.len() as int) =~= s@);
    }
    string_of_range(&va, 0, end)
}

/// A white-space character: one with the Unicode `White_Space` property.
pub open spec fn white_space(c: char) -> bool {
    let u = c as u32;
    (9 <= u <= 13) || u == 32 || u == 0x85 || u == 0xA0 || u == 0x1680 || (0x2000 <= u <= 0x200A)
        || u == 0x2028 || u == 0x2029 || u == 0x202F || u == 0x205F || u == 0x3000
}

/// `s` without its leading white space.
pub open spec fn trim_start_ws(s: Seq<char>) -> Seq<char>
    decreases s.len(),
{
    if s.len() > 0 && white_space(s[0]) {
        trim_start_ws(s.skip(1))
    } else {
        s
    }
}

/// `s` without its trailing white space.
pub open spec fn trim_end_ws(s: Seq<char>) -> Seq<char>
    decreases s.len(),
{
    if s.len() > 0 && white_space(s.last()) {
        trim_end_ws(s.drop_last())
    } else {
        s
    }
}

/// `s` without white space at either end.
pub open spec fn trimmed(s: Seq<char>) -> Seq<char> {
    trim_end_ws(trim_start_ws(s))
}

/// Whether `c` is white space.
pub fn is_white_space(c: char) -> (r: bool)
    ensures
        r == white_space(c),
{
    let u = c as u32;
    (9 <= u && u <= 13) || u == 32 || u == 0x85 || u == 0xA0 || u == 0x1680 || (0x2000 <= u && u
        <= 0x200A) || u == 0x2028 || u == 0x2029 || u == 0x202F || u == 0x205F || u == 0x3000
}

/// `str::trim`: `s` without white space at either end.
pub fn trim_str(s: &str) -> (r: String)
    ensures
        r@ == trimmed(s@),
{
    let va = chars_of(s);
    let n = va.len();
    let mut i: usize = 0;
    assert(s@.skip(0) =~= s@);
    while i < n && is_white_space(va[i])
        invariant
            va@ == s@,
            n == s@.len(),
            i <= n,
            trim_start_ws(s@) == trim_start_ws(s@.skip(i as int)),
        decreases n - i,
    {
        proof {
            assert(s@.skip(i as int).skip(1) =~= s@.skip(i + 1));
        }
        i = i + 1;
    }
    proof {
        assert(s@.skip(i as int) =~= s@.subrange(i as int, n as int));
    }
    let mut j: usize = n;
    while j > i && is_white_space(va[j - 1])
        invariant
            va@ == s@,
            n == s@.len(),
            i <= j <= n,
            trimmed(s@) == trim_end_ws(s@.subrange(i as int, j as int)),
        decreases j,
    {
        proof {
            assert(s@.subrange(i as int, j as int).drop_last() =~= s@.subrange(i as int, j - 1));
        }
        j = j - 1;
    }
    string_of_range(&va, i, j)
}

/// `str::split(sep)` collected: the pieces of `s` between the occurrences
/// of `sep`.
pub fn split_str(s: &str, sep: &str) -> (r: Vec<String>)
    requires
        sep@.len() > 0,
    ensures
        r@.len() == split_on(s@, sep@).len(),
        forall|i: int| 0 <= i < r@.len() ==> (#[trigger] r@[i])@ == split_on(s@, sep@)[i],
{
    let va = chars_of(s);
    let vb = chars_of(sep);
    let mut out: Vec<String> = Vec::new();
    let mut start: usize = 0;
    assert(s@.skip(0) =~= s@);
    assert(split_on(s@, sep@).subrange(0, split_on(s@, sep@).len() as int) =~= split_on(s@, sep@));
    loop
        invariant
            va@ == s@,
            vb@ == sep@,
            sep@.len() > 0,
            start <= va@.len(),
            out@.len() + split_on(s@.skip(start as int), sep@).len() == split_on(s@, sep@).len(),
            forall|i: int|
                0 <= i < out@.len() ==> (#[trigger] out@[i])@ == split_on(s@, sep@)[i],
            split_on(s@, sep@).subrange(out@.len() as int, split_on(s@, sep@).len() as int)
                == split_on(s@.skip(start as int), sep@),
        decreases va@.len() - start,
    {
        let ghost rest = s@.skip(start as int);
        let ghost whole = split_on(s@, sep@);
        match find_in(&va, &vb, start) {
            Some(i) => {
                proof {
                    lemma_find_from(s@, sep@, start as int);
                    lemma_find_from(rest, sep@, 0);
                    // Positions in `rest` are positions in `s` shifted by `start`.
                    assert forall|j: int| 0 <= j < i - start implies !#[trigger] occurs_at(
                        rest,
                        sep@,
                        j,
                    ) by {
                        assert(!occurs_at(s@, sep@, j + start));
                        assert(rest.subrange(j, j + sep@.len()) =~= s@.subrange(
                            j + start,
                            j + start + sep@.len(),
                        ));
                    }
                    assert(rest.subrange(i - start, i - start + sep@.len()) =~= s@.subrange(
                        i as int,
                        i + sep@.len(),
                    ));
                    lemma_find_from_is(rest, sep@, i - start);
                    assert(rest.take(i - start) =~= s@.subrange(start as int, i as int));
                    assert(rest.skip(i - start + sep@.len()) =~= s@.skip(i + sep@.len()));
                }
                assert(i + vb@.len() <= va@.len());
                assert(i + vb.len() <= va.len());
                let piece = string_of_range(&va, start, i);
                out.push(piece);
                proof {
                    let n = out@.len() - 1;
                    let tail = split_on(rest, sep@);
                    assert(tail[0] == piece@);
                    assert(whole.subrange(n, whole.len() as int)[0] == piece@);
                    assert(whole.subrange(n + 1, whole.len() as int) =~= tail.skip(1));
                    assert(tail.skip(1) == split_on(s@.skip(i + sep@.len()), sep@));
                }
                start = i + vb.len();
            },
            None => {
                proof {
                    lemma_find_from(s@, sep@, start as int);
                    assert forall|j: int| 0 <= j implies !#[trigger] occurs_at(rest, sep@, j) by {
                        if j + sep@.len() <= rest.len() {
                            assert(rest.subrange(j, j + sep@.len()) =~= s@.subrange(
                                j + start,
                                j + start + sep@.len(),
                            ));
                            assert(!occurs_at(s@, sep@, j + start));
                        }
                    }
                    lemma_find_from(rest, sep@, 0);
                    let tail = split_on(rest, sep@);
                    assert(tail == seq![rest]);
                    let n = out@.len() as int;
                    assert(whole.subrange(n, whole.len() as int)[0] == rest);
                    assert(rest =~= s@.subrange(start as int, s@.len() as int));
                }
                let piece = string_of_range(&va, start, va.len());
                out.push(piece);
                return out;
            },
        }
    }
}

proof fn lemma_find_from_is(s: Seq<char>, sub: Seq<char>, k: int)
    requires
        0 <= k,
        occurs_at(s, sub, k),
        forall|j: int| 0 <= j < k ==> !#[trigger] occurs_at(s, sub, j),
    ensures
        first_index(s, sub) == Some(k),
{
    lemma_find_from(s, sub, 0);
    match first_index(s, sub) {
        Some(f) => {
            if f < k {
            } else if f > k {
            }
        },
        None => {},
    }
}

/// `str::replace(from, to)`.
pub fn replace_str(s: &str, from: &str, to: &str) -> (r: String)
    requires
        from@.len() > 0,
    ensures
        r@ == replace_all(s@, from@, to@),
{
    let va = chars_of(s);
    let vb = chars_of(from);
    let mut out = String::new();
    let mut start: usize = 0;
    assert(s@.skip(0) =~= s@);
    assert(out@ + replace_all(s@, from@, to@) =~= replace_all(s@, from@, to@));
    loop
        invariant
            va@ == s@,
            vb@ == from@,
            from@.len() > 0,
            start <= va@.len(),
            out@ + replace_all(s@.skip(start as int), from@, to@) == replace_all(s@, from@, to@),
        decreases va@.len() - start,
    {
        let ghost rest = s@.skip(start as int);
        match find_in(&va, &vb, start) {
            Some(i) => {
                proof {
                    lemma_find_from(s@, from@, start as int);
                    assert forall|j: int| 0 <= j < i - start implies !#[trigger] occurs_at(
                        rest,
                        from@,
                        j,
                    ) by {
                        assert(!occurs_at(s@, from@, j + start));
                        assert(rest.subrange(j, j + from@.len()) =~= s@.subrange(
                            j + start,
                            j + start + from@.len(),
                        ));
                    }
                    assert(rest.subrange(i - start, i - start + from@.len()) =~= s@.subrange(
                        i as int,
                        i + from@.len(),
                    ));
                    lemma_find_from_is(rest, from@, i - start);
                    assert(rest.take(i - start) =~= s@.subrange(start as int, i as int));
                    assert(rest.skip(i - start + from@.len()) =~= s@.skip(i + from@.len()));
                }
                assert(i + vb@.len() <= va@.len());
                assert(i + vb.len() <= va.len());
                let piece = string_of_range(&va, start, i);
                let ghost before = out@;
                out.append(piece.as_str());
                out.append(to);
                proof {
                    assert(out@ + replace_all(s@.skip(i + from@.len()), from@, to@) =~= before
                        + replace_all(rest, from@, to@));
                }
                start = i + vb.len();
            },
            None => {
                proof {
                    lemma_find_from(s@, from@, start as int);
                    assert forall|j: int| 0 <= j implies !#[trigger] occurs_at(rest, from@, j) by {
                        if j + from@.len() <= rest.len() {
                            assert(rest.subrange(j, j + from@.len()) =~= s@.subrange(
                                j + start,
                                j + start + from@.len(),
                            ));
                            assert(!occurs_at(s@, from@, j + start));
                        }
                    }
                    lemma_find_from(rest, from@, 0);
                    assert(rest =~= s@.subrange(start as int, s@.len() as int));
                }
                let piece = string_of_range(&va, start, va.len());
                out.append(piece.as_str());
                return out;
            },
        }
    }
}

} // verus!
