//! Character-level text utilities shared by the extractors.

use vstd::prelude::*;

verus! {

/// Unicode White_Space: the characters that `char::is_whitespace` accepts.
pub open spec fn is_white(c: char) -> bool {
    ('\u{9}' <= c && c <= '\u{d}') || c == ' ' || c == '\u{85}' || c == '\u{a0}'
        || c == '\u{1680}' || ('\u{2000}' <= c && c <= '\u{200a}') || c == '\u{2028}'
        || c == '\u{2029}' || c == '\u{202f}' || c == '\u{205f}' || c == '\u{3000}'
}

pub fn is_white_char(c: char) -> (r: bool)
    ensures
        r == is_white(c),
{
    ('\u{9}' <= c && c <= '\u{d}') || c == ' ' || c == '\u{85}' || c == '\u{a0}'
        || c == '\u{1680}' || ('\u{2000}' <= c && c <= '\u{200a}') || c == '\u{2028}'
        || c == '\u{2029}' || c == '\u{202f}' || c == '\u{205f}' || c == '\u{3000}'
}

/// Relies on `String::push`: appends one character.
#[verifier::external_body]
fn push_char(s: &mut String, c: char)
    ensures
        final(s)@ == old(s)@.push(c),
{
    s.push(c);
}

/// The characters of a string slice, in order.
pub fn chars_of(s: &str) -> (r: Vec<char>)
    ensures
        r@ == s@,
{
    let n = s.unicode_len();
    let mut r: Vec<char> = Vec::new();
    let mut i: usize = 0;
    while i < n
        invariant
            n == s@.len(),
            i <= n,
            r@ == s@.subrange(0, i as int),
        decreases n - i,
    {
        r.push(s.get_char(i));
        i += 1;
    }
    r
}

/// A string holding the given characters.
pub fn string_of(v: &Vec<char>) -> (r: String)
    ensures
        r@ == v@,
{
    let mut r = String::new();
    let mut i: usize = 0;
    while i < v.len()
        invariant
            i <= v@.len(),
            r@ == v@.subrange(0, i as int),
        decreases v@.len() - i,
    {
        push_char(&mut r, v[i]);
        i += 1;
    }
    r
}


/// Drops the leading characters that satisfy `p`.
pub open spec fn strip_front(s: Seq<char>, p: spec_fn(char) -> bool) -> Seq<char>
    decreases s.len(),
{
    if s.len() > 0 && p(s[0]) {
        strip_front(s.drop_first(), p)
    } else {
        s
    }
}

/// Drops the trailing characters that satisfy `p`.
pub open spec fn strip_back(s: Seq<char>, p: spec_fn(char) -> bool) -> Seq<char>
    decreases s.len(),
{
    if s.len() > 0 && p(s.last()) {
        strip_back(s.drop_last(), p)
    } else {
        s
    }
}

/// Drops the characters that satisfy `p` at both ends.
pub open spec fn strip(s: Seq<char>, p: spec_fn(char) -> bool) -> Seq<char> {
    strip_back(strip_front(s, p), p)
}

/// The class of characters listed in `cs`, together with white space when `ws` holds.
pub open spec fn class(cs: Seq<char>, ws: bool) -> spec_fn(char) -> bool {
    |c: char| (ws && is_white(c)) || cs.contains(c)
}

/// `s` with white space trimmed at both ends, as `str::trim` does.
pub open spec fn trimmed(s: Seq<char>) -> Seq<char> {
    strip(s, class(Seq::empty(), true))
}

pub fn in_class(c: char, cs: &Vec<char>, ws: bool) -> (r: bool)
    ensures
        r == class(cs@, ws)(c),
{
    if ws && is_white_char(c) {
        return true;
    }
    let mut i: usize = 0;
    while i < cs.len()
        invariant
            i <= cs@.len(),
            forall|k: int| 0 <= k < i ==> cs@[k] != c,
        decreases cs@.len() - i,
    {
        if cs[i] == c {
            assert(cs@.contains(c)) by {
                assert(cs@[i as int] == c);
            }
            return true;
        }
        i += 1;
    }
    false
}

/// The part `s[from..to]` as a vector.
pub fn slice_chars(s: &Vec<char>, from: usize, to: usize) -> (r: Vec<char>)
    requires
        from <= to <= s@.len(),
    ensures
        r@ == s@.subrange(from as int, to as int),
{
    let mut r: Vec<char> = Vec::new();
    let mut i: usize = from;
    while i < to
        invariant
            from <= i <= to <= s@.len(),
            r@ == s@.subrange(from as int, i as int),
        decreases to - i,
    {
        r.push(s[i]);
        i += 1;
    }
    r
}

/// Removes, at both ends, the characters listed in `cs` (and white space when `ws` holds).
pub fn strip_chars(s: &Vec<char>, cs: &Vec<char>, ws: bool) -> (r: Vec<char>)
    ensures
        r@ == strip(s@, class(cs@, ws)),
{
    let ghost p = class(cs@, ws);
    let n = s.len();
    let mut i: usize = 0;
    assert(s@.subrange(0, n as int) =~= s@);
    while i < n && in_class(s[i], cs, ws)
        invariant
            n == s@.len(),
            p == class(cs@, ws),
            i <= n,
            strip_front(s@, p) == strip_front(s@.subrange(i as int, n as int), p),
        decreases n - i,
    {
        assert(s@.subrange(i as int, n as int).drop_first() =~= s@.subrange(i + 1, n as int));
        assert(p(s@.subrange(i as int, n as int)[0]));
        i += 1;
    }
    proof {
        if i == n {
            assert(s@.subrange(i as int, n as int).len() == 0);
        }
    }
    assert(strip_front(s@, p) == s@.subrange(i as int, n as int));
    let mut j: usize = n;
    while j > i && in_class(s[j - 1], cs, ws)
        invariant
            n == s@.len(),
            p == class(cs@, ws),
            i <= j <= n,
            strip(s@, p) == strip_back(s@.subrange(i as int, j as int), p),
        decreases j - i,
    {
        assert(s@.subrange(i as int, j as int).drop_last() =~= s@.subrange(i as int, j - 1));
        assert(p(s@.subrange(i as int, j as int).last()));
        j -= 1;
    }
    slice_chars(s, i, j)
}

/// `str::trim` on a vector of characters.
pub fn trim_chars(s: &Vec<char>) -> (r: Vec<char>)
    ensures
        r@ == trimmed(s@),
{
    let none: Vec<char> = Vec::new();
    assert(none@ =~= Seq::<char>::empty());
    strip_chars(s, &none, true)
}

/// Whether `pat` occurs in `s` at position `i`.
pub open spec fn occurs_at(s: Seq<char>, pat: Seq<char>, i: int) -> bool {
    0 <= i && i + pat.len() <= s.len() && s.subrange(i, i + pat.len()) == pat
}

/// Whether `pat` occurs anywhere in `s`.
pub open spec fn has_sub(s: Seq<char>, pat: Seq<char>) -> bool {
    exists|i: int| occurs_at(s, pat, i)
}

/// `s` with every non-overlapping occurrence of `pat` removed, left to right, as
/// `str::replace(pat, "")` does.
pub open spec fn remove_all(s: Seq<char>, pat: Seq<char>) -> Seq<char>
    decreases s.len(),
{
    if pat.len() == 0 || s.len() < pat.len() {
        s
    } else if s.subrange(0, pat.len() as int) == pat {
        remove_all(s.subrange(pat.len() as int, s.len() as int), pat)
    } else {
        seq![s[0]] + remove_all(s.subrange(1, s.len() as int), pat)
    }
}

pub fn occurs_at_exec(s: &Vec<char>, pat: &Vec<char>, i: usize) -> (r: bool)
    ensures
        r == occurs_at(s@, pat@, i as int),
{
    if i > s.len() || pat.len() > s.len() - i {
        return false;
    }
    let mut k: usize = 0;
    while k < pat.len()
        invariant
            i + pat@.len() <= s@.len(),
            s@.len() <= usize::MAX,
            k <= pat@.len(),
            forall|t: int| 0 <= t < k ==> s@[i + t] == pat@[t],
        decreases pat@.len() - k,
    {
        if s[i + k] != pat[k] {
            assert(s@.subrange(i as int, i + pat@.len())[k as int] != pat@[k as int]);
            return false;
        }
        k += 1;
    }
    assert(s@.subrange(i as int, i + pat@.len()) =~= pat@);
    true
}

/// Whether `pat` occurs in `s`.
pub fn contains_chars(s: &Vec<char>, pat: &Vec<char>) -> (r: bool)
    ensures
        r == has_sub(s@, pat@),
{
    if pat.len() > s.len() {
        return false;
    }
    let last = s.len() - pat.len();
    let mut i: usize = 0;
    loop
        invariant
            last == s@.len() - pat@.len(),
            i <= last,
            forall|j: int| 0 <= j < i ==> !occurs_at(s@, pat@, j),
        decreases last - i,
    {
        if occurs_at_exec(s, pat, i) {
            return true;
        }
        if i == last {
            return false;
        }
        i += 1;
    }
}

/// Removes every non-overlapping occurrence of a non-empty `pat`.
pub fn remove_all_chars(s: &Vec<char>, pat: &Vec<char>) -> (r: Vec<char>)
    requires
        pat@.len() > 0,
    ensures
        r@ == remove_all(s@, pat@),
{
    let n = s.len();
    let m = pat.len();
    let mut out: Vec<char> = Vec::new();
    let mut i: usize = 0;
    assert(s@.subrange(0, n as int) =~= s@);
    while i < n
        invariant
            n == s@.len(),
            m == pat@.len(),
            m > 0,
            i <= n,
            out@ + remove_all(s@.subrange(i as int, n as int), pat@) == remove_all(s@, pat@),
        decreases n - i,
    {
        let ghost rest = s@.subrange(i as int, n as int);
        if occurs_at_exec(s, pat, i) {
            assert(rest.subrange(0, m as int) =~= s@.subrange(i as int, i + m));
            assert(rest.subrange(m as int, rest.len() as int) =~= s@.subrange(i + m, n as int));
            i += m;
        } else {
            let ghost tail = s@.subrange(i + 1, n as int);
            assert(rest.subrange(1, rest.len() as int) =~= tail);
            proof {
                if rest.len() >= m {
                    assert(rest.subrange(0, m as int) =~= s@.subrange(i as int, i + m));
                } else {
                    assert(rest =~= seq![rest[0]] + tail);
                }
            }
            assert(out@.push(s@[i as int]) + remove_all(tail, pat@) =~= out@ + (seq![s@[i as int]]
                + remove_all(tail, pat@)));
            out.push(s[i]);
            i += 1;
        }
    }
    assert(out@ + remove_all(s@.subrange(n as int, n as int), pat@) =~= out@);
    out
}


/// The pieces of `s` between the occurrences of `c`, as `str::split(c)` gives them.
pub open spec fn split_on(s: Seq<char>, c: char) -> Seq<Seq<char>>
    decreases s.len(),
{
    if s.len() == 0 {
        seq![Seq::empty()]
    } else {
        let r = split_on(s.drop_last(), c);
        if s.last() == c {
            r.push(Seq::empty())
        } else {
            r.update(r.len() - 1, r.last().push(s.last()))
        }
    }
}

/// The views of a sequence of character vectors.
pub open spec fn char_views(v: Seq<Vec<char>>) -> Seq<Seq<char>> {
    v.map_values(|x: Vec<char>| x@)
}

/// The views of a sequence of strings.
pub open spec fn str_views(v: Seq<String>) -> Seq<Seq<char>> {
    v.map_values(|x: String| x@)
}

/// `parts` joined with `sep` between neighbours.
pub open spec fn join(parts: Seq<Seq<char>>, sep: Seq<char>) -> Seq<char>
    decreases parts.len(),
{
    if parts.len() == 0 {
        Seq::empty()
    } else if parts.len() == 1 {
        parts[0]
    } else {
        join(parts.drop_last(), sep) + sep + parts.last()
    }
}

/// The last non-empty piece, or the empty sequence where there is none.
pub open spec fn last_nonempty(parts: Seq<Seq<char>>) -> Seq<char>
    decreases parts.len(),
{
    if parts.len() == 0 {
        Seq::empty()
    } else if parts.last().len() > 0 {
        parts.last()
    } else {
        last_nonempty(parts.drop_last())
    }
}

/// Splits `s` at every occurrence of `c`.
pub fn split_chars(s: &Vec<char>, c: char) -> (r: Vec<Vec<char>>)
    ensures
        char_views(r@) == split_on(s@, c),
{
    let mut done: Vec<Vec<char>> = Vec::new();
    let mut cur: Vec<char> = Vec::new();
    let mut i: usize = 0;
    assert(char_views(done@).push(cur@) =~= split_on(s@.subrange(0, 0), c));
    while i < s.len()
        invariant
            i <= s@.len(),
            char_views(done@).push(cur@) == split_on(s@.subrange(0, i as int), c),
        decreases s@.len() - i,
    {
        let ghost pre = s@.subrange(0, i + 1);
        assert(pre.drop_last() =~= s@.subrange(0, i as int));
        assert(pre.last() == s@[i as int]);
        if s[i] == c {
            done.push(cur);
            cur = Vec::new();
            assert(char_views(done@).push(cur@) =~= split_on(pre.drop_last(), c).push(
                Seq::empty(),
            ));
        } else {
            let ghost before = char_views(done@).push(cur@);
            cur.push(s[i]);
            assert(char_views(done@).push(cur@) =~= before.update(
                before.len() - 1,
                before.last().push(s@[i as int]),
            ));
        }
        i += 1;
    }
    assert(s@.subrange(0, s@.len() as int) =~= s@);
    done.push(cur);
    assert(char_views(done@) =~= split_on(s@, c));
    done
}

/// Joins `parts` with `sep` between neighbours.
pub fn join_strings(parts: &[String], sep: &str) -> (r: String)
    ensures
        r@ == join(str_views(parts@), sep@),
{
    let mut r = String::new();
    let mut i: usize = 0;
    assert(str_views(parts@.subrange(0, 0)) =~= Seq::<Seq<char>>::empty());
    while i < parts.len()
        invariant
            i <= parts@.len(),
            r@ == join(str_views(parts@.subrange(0, i as int)), sep@),
        decreases parts@.len() - i,
    {
        let ghost pre = str_views(parts@.subrange(0, i + 1));
        assert(pre.drop_last() =~= str_views(parts@.subrange(0, i as int)));
        assert(pre.last() == parts@[i as int]@);
        if i > 0 {
            r.append(sep);
        } else {
            assert(pre.len() == 1);
        }
        r.append(parts[i].as_str());
        i += 1;
    }
    assert(parts@.subrange(0, parts@.len() as int) =~= parts@);
    r
}

/// The last non-empty piece of `parts`, or an empty vector.
pub fn last_nonempty_of(parts: &Vec<Vec<char>>) -> (r: Vec<char>)
    ensures
        r@ == last_nonempty(char_views(parts@)),
{
    let mut j: usize = parts.len();
    assert(parts@.subrange(0, parts@.len() as int) =~= parts@);
    while j > 0 && parts[j - 1].len() == 0
        invariant
            j <= parts@.len(),
            last_nonempty(char_views(parts@)) == last_nonempty(char_views(parts@.subrange(0, j as int))),
        decreases j,
    {
        assert(char_views(parts@.subrange(0, j as int)).drop_last() =~= char_views(
            parts@.subrange(0, j - 1),
        ));
        j -= 1;
    }
    if j == 0 {
        assert(char_views(parts@.subrange(0, 0)).len() == 0);
        Vec::new()
    } else {
        assert(char_views(parts@.subrange(0, j as int)).last() == parts@[j - 1]@);
        parts[j - 1].clone()
    }
}


pub proof fn lemma_strip_front_within(s: Seq<char>, p: spec_fn(char) -> bool)
    ensures
        forall|c: char| strip_front(s, p).contains(c) ==> s.contains(c),
        strip_front(s, p).len() == 0 || !p(strip_front(s, p)[0]),
    decreases s.len(),
{
    if s.len() > 0 && p(s[0]) {
        let t = s.drop_first();
        lemma_strip_front_within(t, p);
        assert forall|c: char| t.contains(c) implies s.contains(c) by {
            let i = choose|i: int| 0 <= i < t.len() && t[i] == c;
            assert(s[i + 1] == c);
        }
    }
}

pub proof fn lemma_strip_back_within(s: Seq<char>, p: spec_fn(char) -> bool)
    ensures
        strip_back(s, p).len() <= s.len(),
        strip_back(s, p) == s.subrange(0, strip_back(s, p).len() as int),
        strip_back(s, p).len() == 0 || !p(strip_back(s, p).last()),
    decreases s.len(),
{
    if s.len() > 0 && p(s.last()) {
        let t = s.drop_last();
        lemma_strip_back_within(t, p);
        assert(t.subrange(0, strip_back(t, p).len() as int) =~= s.subrange(
            0,
            strip_back(t, p).len() as int,
        ));
    } else {
        assert(s.subrange(0, s.len() as int) =~= s);
    }
}

/// What `strip` leaves holds only characters of its argument, and neither of its
/// ends is in the class.
pub proof fn lemma_strip_within(s: Seq<char>, p: spec_fn(char) -> bool)
    ensures
        forall|c: char| strip(s, p).contains(c) ==> s.contains(c),
        strip(s, p).len() == 0 || (!p(strip(s, p)[0]) && !p(strip(s, p).last())),
{
    let t = strip_front(s, p);
    lemma_strip_front_within(s, p);
    lemma_strip_back_within(t, p);
    let r = strip_back(t, p);
    assert forall|c: char| r.contains(c) implies s.contains(c) by {
        let i = choose|i: int| 0 <= i < r.len() && r[i] == c;
        assert(t[i] == c);
    }
    if r.len() > 0 {
        assert(r[0] == t[0]);
    }
}

/// `strip` leaves a sequence whose ends are outside the class as it is.
pub proof fn lemma_strip_noop(s: Seq<char>, p: spec_fn(char) -> bool)
    requires
        s.len() == 0 || (!p(s[0]) && !p(s.last())),
    ensures
        strip(s, p) == s,
{
}

/// Removing a single character takes every copy of it and leaves a sequence
/// without one unchanged.
pub proof fn lemma_remove_char(s: Seq<char>, c: char)
    ensures
        !remove_all(s, seq![c]).contains(c),
        forall|d: char| remove_all(s, seq![c]).contains(d) ==> s.contains(d),
        !s.contains(c) ==> remove_all(s, seq![c]) == s,
    decreases s.len(),
{
    if s.len() > 0 {
        let t = s.subrange(1, s.len() as int);
        lemma_remove_char(t, c);
        assert(s.subrange(0, 1) =~= seq![s[0]]);
        assert(forall|d: char| t.contains(d) ==> s.contains(d)) by {
            assert forall|d: char| t.contains(d) implies s.contains(d) by {
                let i = choose|i: int| 0 <= i < t.len() && t[i] == d;
                assert(s[i + 1] == d);
            }
        }
        if s[0] != c {
            let r = seq![s[0]] + remove_all(t, seq![c]);
            assert forall|d: char| r.contains(d) implies s.contains(d) by {
                let i = choose|i: int| 0 <= i < r.len() && r[i] == d;
                if i == 0 {
                    assert(s[0] == d);
                } else {
                    assert(remove_all(t, seq![c])[i - 1] == d);
                }
            }
            if !s.contains(c) {
                assert(!t.contains(c));
                assert(s =~= seq![s[0]] + t);
            }
        } else {
            assert(s.contains(c)) by {
                assert(s[0] == c);
            }
        }
    }
}


/// Whether two character vectors are equal.
pub fn same_chars(a: &Vec<char>, b: &Vec<char>) -> (r: bool)
    ensures
        r == (a@ == b@),
{
    if a.len() != b.len() {
        return false;
    }
    let mut i: usize = 0;
    while i < a.len()
        invariant
            a@.len() == b@.len(),
            i <= a@.len(),
            forall|k: int| 0 <= k < i ==> a@[k] == b@[k],
        decreases a@.len() - i,
    {
        if a[i] != b[i] {
            return false;
        }
        i += 1;
    }
    assert(a@ =~= b@);
    true
}

/// Whether a string holds exactly the text of a literal.
pub fn is_text(s: &str, lit: &str) -> (r: bool)
    ensures
        r == (s@ == lit@),
{
    same_chars(&chars_of(s), &chars_of(lit))
}


/// A sequence without the separator splits into itself alone.
pub proof fn lemma_split_without_sep(x: Seq<char>, c: char)
    requires
        !x.contains(c),
    ensures
        split_on(x, c) == seq![x],
    decreases x.len(),
{
    if x.len() > 0 {
        let d = x.drop_last();
        assert(!d.contains(c)) by {
            if d.contains(c) {
                let i = choose|i: int| 0 <= i < d.len() && d[i] == c;
                assert(x[i] == c);
            }
        }
        lemma_split_without_sep(d, c);
        assert(x.last() != c) by {
            assert(x[x.len() - 1] == x.last());
        }
        assert(d.push(x.last()) =~= x);
        assert(split_on(x, c) =~= seq![x]);
    } else {
        assert(x =~= Seq::<char>::empty());
    }
}

/// Appending text without the separator extends the last piece.
pub proof fn lemma_split_append(a: Seq<char>, l: Seq<char>, c: char)
    requires
        !l.contains(c),
    ensures
        split_on(a + l, c) == split_on(a, c).drop_last().push(split_on(a, c).last() + l),
    decreases l.len(),
{
    lemma_split_nonempty(a, c);
    if l.len() == 0 {
        assert(a + l =~= a);
        assert(split_on(a, c).last() + l =~= split_on(a, c).last());
        assert(split_on(a, c).drop_last().push(split_on(a, c).last()) =~= split_on(a, c));
    } else {
        let ld = l.drop_last();
        assert(!ld.contains(c)) by {
            if ld.contains(c) {
                let i = choose|i: int| 0 <= i < ld.len() && ld[i] == c;
                assert(l[i] == c);
            }
        }
        lemma_split_append(a, ld, c);
        assert((a + l).drop_last() =~= a + ld);
        assert((a + l).last() == l.last());
        assert(l.last() != c) by {
            assert(l[l.len() - 1] == l.last());
        }
        let s = split_on(a, c);
        let r = split_on(a + ld, c);
        assert(r == s.drop_last().push(s.last() + ld));
        assert(r.last() == s.last() + ld);
        assert((s.last() + ld).push(l.last()) =~= s.last() + l);
        assert(r.update(r.len() - 1, r.last().push(l.last())) =~= s.drop_last().push(s.last() + l));
    }
}

pub proof fn lemma_split_nonempty(s: Seq<char>, c: char)
    ensures
        split_on(s, c).len() >= 1,
    decreases s.len(),
{
    if s.len() > 0 {
        lemma_split_nonempty(s.drop_last(), c);
    }
}


/// Every character of `a` is in the class.
pub open spec fn all_in(a: Seq<char>, p: spec_fn(char) -> bool) -> bool {
    forall|i: int| 0 <= i < a.len() ==> p(#[trigger] a[i])
}

pub proof fn lemma_strip_front_prefix(a: Seq<char>, x: Seq<char>, p: spec_fn(char) -> bool)
    requires
        all_in(a, p),
    ensures
        strip_front(a + x, p) == strip_front(x, p),
    decreases a.len(),
{
    if a.len() == 0 {
        assert(a + x =~= x);
    } else {
        assert((a + x)[0] == a[0]);
        assert(p(a[0]));
        assert((a + x).drop_first() =~= a.drop_first() + x);
        assert(all_in(a.drop_first(), p)) by {
            assert forall|i: int| 0 <= i < a.drop_first().len() implies p(
                #[trigger] a.drop_first()[i],
            ) by {
                assert(a.drop_first()[i] == a[i + 1]);
            }
        }
        lemma_strip_front_prefix(a.drop_first(), x, p);
    }
}

pub proof fn lemma_strip_back_suffix(x: Seq<char>, c: Seq<char>, p: spec_fn(char) -> bool)
    requires
        all_in(c, p),
    ensures
        strip_back(x + c, p) == strip_back(x, p),
    decreases c.len(),
{
    if c.len() == 0 {
        assert(x + c =~= x);
    } else {
        assert((x + c).last() == c.last());
        assert(p(c[c.len() - 1]));
        assert((x + c).drop_last() =~= x + c.drop_last());
        assert(all_in(c.drop_last(), p)) by {
            assert forall|i: int| 0 <= i < c.drop_last().len() implies p(
                #[trigger] c.drop_last()[i],
            ) by {
                assert(c.drop_last()[i] == c[i]);
            }
        }
        lemma_strip_back_suffix(x, c.drop_last(), p);
    }
}

pub proof fn lemma_strip_front_concat(b: Seq<char>, c: Seq<char>, p: spec_fn(char) -> bool)
    ensures
        strip_front(b, p).len() > 0 ==> strip_front(b + c, p) == strip_front(b, p) + c,
        strip_front(b, p).len() == 0 ==> strip_front(b + c, p) == strip_front(c, p),
    decreases b.len(),
{
    if b.len() == 0 {
        assert(b + c =~= c);
    } else {
        assert((b + c)[0] == b[0]);
        assert((b + c).drop_first() =~= b.drop_first() + c);
        lemma_strip_front_concat(b.drop_first(), c, p);
    }
}

/// Surrounding runs of class characters do not change what `strip` leaves.
pub proof fn lemma_strip_surrounded(a: Seq<char>, b: Seq<char>, c: Seq<char>, p: spec_fn(char) -> bool)
    requires
        all_in(a, p),
        all_in(c, p),
    ensures
        strip(a + b + c, p) == strip(b, p),
{
    assert(a + b + c =~= a + (b + c));
    lemma_strip_front_prefix(a, b + c, p);
    lemma_strip_front_concat(b, c, p);
    if strip_front(b, p).len() > 0 {
        lemma_strip_back_suffix(strip_front(b, p), c, p);
    } else {
        lemma_strip_front_prefix(c, Seq::empty(), p);
        assert(c + Seq::<char>::empty() =~= c);
        assert(strip_front(Seq::<char>::empty(), p) =~= Seq::<char>::empty());
    }
}

/// Removing a character distributes over concatenation.
pub proof fn lemma_remove_char_concat(a: Seq<char>, b: Seq<char>, c: char)
    ensures
        remove_all(a + b, seq![c]) == remove_all(a, seq![c]) + remove_all(b, seq![c]),
    decreases a.len(),
{
    if a.len() == 0 {
        assert(a + b =~= b);
        assert(remove_all(a, seq![c]) =~= Seq::<char>::empty());
        assert(Seq::<char>::empty() + remove_all(b, seq![c]) =~= remove_all(b, seq![c]));
    } else {
        let t = a.subrange(1, a.len() as int);
        assert((a + b).subrange(1, (a + b).len() as int) =~= t + b);
        assert((a + b).subrange(0, 1) =~= seq![a[0]]);
        assert(a.subrange(0, 1) =~= seq![a[0]]);
        lemma_remove_char_concat(t, b, c);
        if a[0] != c {
            assert(seq![a[0]] + (remove_all(t, seq![c]) + remove_all(b, seq![c])) =~= (seq![a[0]]
                + remove_all(t, seq![c])) + remove_all(b, seq![c]));
        }
    }
}

} // verus!
