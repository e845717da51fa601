//! Text as sequences of characters: trimming, searching and replacing.

use vstd::prelude::*;

verus! {

/// Appends one character, as `String::push` is documented to.
pub assume_specification[ String::push ](s: &mut String, c: char)
    ensures
        final(s)@ == old(s)@.push(c),
;

/// The characters with Unicode's `White_Space` property.
pub open spec fn white(c: char) -> bool {
    let u = c as int;
    ||| 0x9 <= u <= 0xd
    ||| u == 0x20
    ||| u == 0x85
    ||| u == 0xa0
    ||| u == 0x1680
    ||| 0x2000 <= u <= 0x200a
    ||| u == 0x2028
    ||| u == 0x2029
    ||| u == 0x202f
    ||| u == 0x205f
    ||| u == 0x3000
}

/// `s` without the white space that it starts with.
pub open spec fn trimmed_start(s: Seq<char>) -> Seq<char>
    decreases s.len(),
{
    if s.len() > 0 && white(s[0]) {
        trimmed_start(s.skip(1))
    } else {
        s
    }
}

/// `s` without the white space that it ends with.
pub open spec fn trimmed_end(s: Seq<char>) -> Seq<char>
    decreases s.len(),
{
    if s.len() > 0 && white(s.last()) {
        trimmed_end(s.drop_last())
    } else {
        s
    }
}

/// `s` without the white space around it.
pub open spec fn trimmed(s: Seq<char>) -> Seq<char> {
    trimmed_end(trimmed_start(s))
}

/// `pat` stands in `s` from position `i` on.
pub open spec fn occurs_at(s: Seq<char>, pat: Seq<char>, i: int) -> bool {
    0 <= i && i + pat.len() <= s.len() && s.subrange(i, i + pat.len()) == pat
}

/// `pat` stands somewhere in `s`.
pub open spec fn contains_text(s: Seq<char>, pat: Seq<char>) -> bool {
    exists|i: int| #[trigger] occurs_at(s, pat, i)
}

/// `s` starts with `pat`.
pub open spec fn begins(s: Seq<char>, pat: Seq<char>) -> bool {
    occurs_at(s, pat, 0)
}

/// `s` ends with `pat`.
pub open spec fn ends(s: Seq<char>, pat: Seq<char>) -> bool {
    occurs_at(s, pat, s.len() - pat.len())
}

/// `s` with every occurrence of `pat`, found from the left and without
/// overlap, replaced by `with`.
pub open spec fn replaced_all(s: Seq<char>, pat: Seq<char>, with: Seq<char>) -> Seq<char>
    decreases s.len(),
{
    if s.len() == 0 || pat.len() == 0 {
        s
    } else if begins(s, pat) {
        with + replaced_all(s.skip(pat.len() as int), pat, with)
    } else {
        seq![s[0]] + replaced_all(s.skip(1), pat, with)
    }
}

/// `s` with the leftmost occurrence of `pat` replaced by `with`: `s` itself where
/// `pat` does not occur.
pub open spec fn replaced_first(s: Seq<char>, pat: Seq<char>, with: Seq<char>) -> Seq<char>
    decreases s.len(),
{
    if begins(s, pat) {
        with + s.skip(pat.len() as int)
    } else if s.len() == 0 {
        s
    } else {
        seq![s[0]] + replaced_first(s.skip(1), pat, with)
    }
}

/// `s[a..b]` is a whole line of `s`.
pub open spec fn is_line(s: Seq<char>, a: int, b: int) -> bool {
    &&& 0 <= a <= b <= s.len()
    &&& a == 0 || s[a - 1] == '\n'
    &&& b == s.len() || s[b] == '\n'
    &&& forall|k: int| a <= k < b ==> s[k] != '\n'
}

/// Some line of `s`, trimmed, is `line`.
pub open spec fn has_line(s: Seq<char>, line: Seq<char>) -> bool {
    exists|a: int, b: int| #[trigger] is_line(s, a, b) && trimmed(s.subrange(a, b)) == line
}

/// What comes before the first `sep` in `s`: all of `s` where there is none.
pub open spec fn before_first(s: Seq<char>, sep: char) -> Seq<char>
    decreases s.len(),
{
    if s.len() == 0 || s[0] == sep {
        Seq::empty()
    } else {
        seq![s[0]] + before_first(s.skip(1), sep)
    }
}

/// The views of a list of strings.
pub open spec fn texts(v: Seq<String>) -> Seq<Seq<char>> {
    v.map_values(|s: String| s@)
}

/// The view of an optional string.
pub open spec fn opt_text(o: Option<String>) -> Option<Seq<char>> {
    match o {
        Some(s) => Some(s@),
        None => None,
    }
}

/// The characters of `s`.
pub fn to_chars(s: &str) -> (r: Vec<char>)
    ensures
        r@ == s@,
{
    let mut r: Vec<char> = Vec::new();
    for c in it: s.chars()
        invariant
            r@ == s@.take(it.index()),
            it.seq() == s@,
    {
        r.push(c);
        assert(s@.take(it.index() + 1) == s@.take(it.index()).push(s@[it.index()]));
    }
    assert(s@.take(s@.len() as int) == s@);
    r
}

/// The string of the characters `v[from..to]`.
pub fn from_chars(v: &Vec<char>, from: usize, to: usize) -> (r: String)
    requires
        from <= to <= v@.len(),
    ensures
        r@ == v@.subrange(from as int, to as int),
{
    let mut r = String::new();
    let mut i: usize = from;
    while i < to
        invariant
            from <= i <= to <= v@.len(),
            r@ == v@.subrange(from as int, i as int),
        decreases to - i,
    {
        r.push(v[i]);
        assert(v@.subrange(from as int, i + 1) == v@.subrange(from as int, i as int).push(v@[i as int]));
        i += 1;
    }
    r
}

/// A string with the contents of `s`.
pub fn owned(s: &str) -> (r: String)
    ensures
        r@ == s@,
{
    s.to_owned()
}

/// The two texts one after the other.
pub fn joined(a: &str, b: &str) -> (r: String)
    ensures
        r@ == a@ + b@,
{
    let mut r = a.to_owned();
    r.append(b);
    r
}

/// Whether two texts hold the same characters.
pub fn same_text(a: &str, b: &str) -> (r: bool)
    ensures
        r == (a@ == b@),
{
    a.to_owned() == b.to_owned()
}

/// The same optional string again.
pub fn copy_opt(o: &Option<String>) -> (r: Option<String>)
    ensures
        r == *o,
{
    match o {
        Some(s) => Some(s.clone()),
        None => None,
    }
}

/// Whether `c` has Unicode's `White_Space` property.
pub fn is_white(c: char) -> (r: bool)
    ensures
        r == white(c),
{
    let u: u32 = c as u32;
    (0x9 <= u && u <= 0xd) || u == 0x20 || u == 0x85 || u == 0xa0 || u == 0x1680 || (0x2000 <= u
        && u <= 0x200a) || u == 0x2028 || u == 0x2029 || u == 0x202f || u == 0x205f || u == 0x3000
}

/// Where the trimmed part of `v[from..to]` starts and ends.
pub fn trim_bounds(v: &Vec<char>, from: usize, to: usize) -> (r: (usize, usize))
    requires
        from <= to <= v@.len(),
    ensures
        from <= r.0 <= r.1 <= to,
        v@.subrange(r.0 as int, r.1 as int) == trimmed(v@.subrange(from as int, to as int)),
{
    let mut a: usize = from;
    while a < to && is_white(v[a])
        invariant
            from <= a <= to <= v@.len(),
            trimmed_start(v@.subrange(from as int, to as int)) == trimmed_start(
                v@.subrange(a as int, to as int),
            ),
        decreases to - a,
    {
        assert(v@.subrange(a as int, to as int).skip(1) == v@.subrange(a + 1, to as int));
        a += 1;
    }
    assert(trimmed_start(v@.subrange(from as int, to as int)) == v@.subrange(a as int, to as int));
    let mut b: usize = to;
    while b > a && is_white(v[b - 1])
        invariant
            from <= a <= b <= to <= v@.len(),
            trimmed_end(v@.subrange(a as int, to as int)) == trimmed_end(
                v@.subrange(a as int, b as int),
            ),
        decreases b - a,
    {
        assert(v@.subrange(a as int, b as int).drop_last() == v@.subrange(a as int, b - 1));
        b -= 1;
    }
    (a, b)
}

/// `s` without the white space around it.
pub fn trim(s: &str) -> (r: String)
    ensures
        r@ == trimmed(s@),
{
    let v = to_chars(s);
    let (a, b) = trim_bounds(&v, 0, v.len());
    assert(v@.subrange(0, v@.len() as int) == v@);
    from_chars(&v, a, b)
}

/// Whether `pat` stands in `v` from position `i` on.
pub fn matches_at(v: &Vec<char>, pat: &Vec<char>, i: usize) -> (r: bool)
    requires
        i <= v@.len(),
    ensures
        r == occurs_at(v@, pat@, i as int),
{
    if pat.len() > v.len() - i {
        return false;
    }
    let mut k: usize = 0;
    while k < pat.len()
        invariant
            k <= pat@.len(),
            i + pat@.len() <= v.len(),
            forall|j: int| 0 <= j < k ==> v@[i + j] == pat@[j],
        decreases pat.len() - k,
    {
        if v[i + k] != pat[k] {
            assert(v@.subrange(i as int, i + pat@.len())[k as int] != pat@[k as int]);
            return false;
        }
        k += 1;
    }
    assert(v@.subrange(i as int, i + pat@.len()) == pat@);
    true
}

/// The position of the leftmost occurrence of `pat` in `v`.
pub fn find(v: &Vec<char>, pat: &Vec<char>) -> (r: Option<usize>)
    ensures
        match r {
            Some(i) => occurs_at(v@, pat@, i as int) && forall|j: int|
                0 <= j < i ==> !#[trigger] occurs_at(v@, pat@, j),
            None => !contains_text(v@, pat@),
        },
{
    let mut i: usize = 0;
    while i < v.len()
        invariant
            i <= v@.len(),
            forall|j: int| 0 <= j < i ==> !#[trigger] occurs_at(v@, pat@, j),
        decreases v.len() - i,
    {
        if matches_at(v, pat, i) {
            return Some(i);
        }
        i += 1;
    }
    if matches_at(v, pat, i) {
        return Some(i);
    }
    None
}

/// Whether `pat` stands somewhere in `s`.
pub fn contains(s: &str, pat: &str) -> (r: bool)
    ensures
        r == contains_text(s@, pat@),
{
    find(&to_chars(s), &to_chars(pat)).is_some()
}

/// Whether `s` starts with `pat`.
pub fn starts_with(s: &str, pat: &str) -> (r: bool)
    ensures
        r == begins(s@, pat@),
{
    matches_at(&to_chars(s), &to_chars(pat), 0)
}

/// Whether `s` ends with `pat`.
pub fn ends_with(s: &str, pat: &str) -> (r: bool)
    ensures
        r == ends(s@, pat@),
{
    let v = to_chars(s);
    let p = to_chars(pat);
    if p.len() > v.len() {
        false
    } else {
        matches_at(&v, &p, v.len() - p.len())
    }
}

/// `s` with every occurrence of `pat` replaced by `with`.
pub fn replace_all(s: &str, pat: &str, with: &str) -> (r: String)
    requires
        pat@.len() > 0,
    ensures
        r@ == replaced_all(s@, pat@, with@),
{
    let v = to_chars(s);
    let p = to_chars(pat);
    let mut r = String::new();
    let mut i: usize = 0;
    assert(s@.skip(0) == s@);
    assert(r@ + replaced_all(s@, pat@, with@) == replaced_all(s@, pat@, with@));
    while i < v.len()
        invariant
            v@ == s@,
            p@ == pat@,
            p@.len() > 0,
            i <= v@.len(),
            replaced_all(s@, pat@, with@) == r@ + replaced_all(s@.skip(i as int), pat@, with@),
        decreases v.len() - i,
    {
        let ghost rest = s@.skip(i as int);
        let ghost before = r@;
        if matches_at(&v, &p, i) {
            proof {
                assert(rest.subrange(0, p@.len() as int) == s@.subrange(i as int, i + p@.len()));
                assert(rest.skip(p@.len() as int) == s@.skip(i + p@.len()));
            }
            r.append(with);
            i += p.len();
            assert(before + (with@ + replaced_all(s@.skip(i as int), pat@, with@)) == r@
                + replaced_all(s@.skip(i as int), pat@, with@));
        } else {
            proof {
                if begins(rest, pat@) {
                    assert(s@.subrange(i as int, i + p@.len()) == rest.subrange(
                        0,
                        p@.len() as int,
                    ));
                }
                assert(rest.skip(1) == s@.skip(i + 1));
            }
            r.push(v[i]);
            i += 1;
            assert(before + (seq![rest[0]] + replaced_all(s@.skip(i as int), pat@, with@)) == r@
                + replaced_all(s@.skip(i as int), pat@, with@));
        }
    }
    assert(r@ + replaced_all(s@.skip(i as int), pat@, with@) == r@);
    r
}

/// Where `pat` stands first decides what `replaced_first` gives.
pub proof fn replaced_first_at(s: Seq<char>, pat: Seq<char>, with: Seq<char>, i: int)
    requires
        occurs_at(s, pat, i),
        forall|j: int| 0 <= j < i ==> !#[trigger] occurs_at(s, pat, j),
    ensures
        replaced_first(s, pat, with) == s.take(i) + with + s.skip(i + pat.len()),
    decreases i,
{
    if i == 0 {
        assert(s.take(0) + with + s.skip(pat.len() as int) == with + s.skip(pat.len() as int));
    } else {
        let rest = s.skip(1);
        assert(!occurs_at(s, pat, 0));
        assert(rest.subrange(i - 1, i - 1 + pat.len()) == s.subrange(i, i + pat.len()));
        assert forall|j: int| 0 <= j < i - 1 implies !#[trigger] occurs_at(rest, pat, j) by {
            assert(!occurs_at(s, pat, j + 1));
            if occurs_at(rest, pat, j) {
                assert(s.subrange(j + 1, j + 1 + pat.len()) == rest.subrange(j, j + pat.len()));
            }
        }
        replaced_first_at(rest, pat, with, i - 1);
        assert(seq![s[0]] + (rest.take(i - 1) + with + rest.skip(i - 1 + pat.len())) == s.take(i)
            + with + s.skip(i + pat.len()));
    }
}

/// A text in which `pat` does not occur stays as it is.
pub proof fn replaced_first_nowhere(s: Seq<char>, pat: Seq<char>, with: Seq<char>)
    requires
        !contains_text(s, pat),
    ensures
        replaced_first(s, pat, with) == s,
    decreases s.len(),
{
    assert(!occurs_at(s, pat, 0));
    if s.len() > 0 {
        let rest = s.skip(1);
        if contains_text(rest, pat) {
            let j = choose|j: int| occurs_at(rest, pat, j);
            assert(s.subrange(j + 1, j + 1 + pat.len()) == rest.subrange(j, j + pat.len()));
            assert(occurs_at(s, pat, j + 1));
        }
        replaced_first_nowhere(rest, pat, with);
        assert(seq![s[0]] + rest == s);
    }
}

/// `s` with the leftmost occurrence of `pat` replaced by `with`.
pub fn replace_first(s: &str, pat: &str, with: &str) -> (r: String)
    ensures
        r@ == replaced_first(s@, pat@, with@),
{
    let v = to_chars(s);
    let p = to_chars(pat);
    match find(&v, &p) {
        None => {
            proof {
                replaced_first_nowhere(s@, pat@, with@);
            }
            s.to_owned()
        },
        Some(i) => {
            let mut r = from_chars(&v, 0, i);
            r.append(with);
            assert(i + p@.len() <= v.len());
            let tail = from_chars(&v, i + p.len(), v.len());
            r.append(tail.as_str());
            proof {
                assert(s@.subrange(0, i as int) == s@.take(i as int));
                assert(s@.subrange(i + p@.len(), v@.len() as int) == s@.skip(i + p@.len()));
                replaced_first_at(s@, pat@, with@, i as int);
            }
            r
        },
    }
}

/// `s` without the characters `c` that it starts with.
pub open spec fn without_leading(s: Seq<char>, c: char) -> Seq<char>
    decreases s.len(),
{
    if s.len() > 0 && s[0] == c {
        without_leading(s.skip(1), c)
    } else {
        s
    }
}

/// `s` without the characters `c` that it starts with.
pub fn strip_leading(s: &str, c: char) -> (r: String)
    ensures
        r@ == without_leading(s@, c),
{
    let v = to_chars(s);
    let mut i: usize = 0;
    assert(s@.skip(0) == s@);
    while i < v.len() && v[i] == c
        invariant
            i <= v@.len(),
            v@ == s@,
            without_leading(s@, c) == without_leading(s@.skip(i as int), c),
        decreases v.len() - i,
    {
        assert(s@.skip(i as int).skip(1) == s@.skip(i + 1));
        i += 1;
    }
    assert(s@.subrange(i as int, s@.len() as int) == s@.skip(i as int));
    from_chars(&v, i, v.len())
}

/// Whether some line of `s`, trimmed, is `line`.
pub fn any_line_is(s: &str, line: &str) -> (r: bool)
    ensures
        r == has_line(s@, line@),
{
    let v = to_chars(s);
    let want = to_chars(line);
    let mut a: usize = 0;
    let mut b: usize = 0;
    loop
        invariant
            v@ == s@,
            want@ == line@,
            a <= b <= v@.len(),
            a == 0 || v@[a - 1] == '\n',
            forall|k: int| a <= k < b ==> v@[k] != '\n',
            forall|x: int, y: int|
                #[trigger] is_line(s@, x, y) && y < b ==> trimmed(s@.subrange(x, y)) != line@,
        decreases v.len() - b,
    {
        if b == v.len() || v[b] == '\n' {
            let (c, d) = trim_bounds(&v, a, b);
            let found = d - c == want.len() && matches_at(&v, &want, c);
            proof {
                assert(is_line(s@, a as int, b as int));
                assert forall|x: int, y: int| #[trigger] is_line(s@, x, y) && y == b implies x
                    == a by {
                    if x < a {
                        assert(s@[a - 1] != '\n');
                    }
                    if x > a {
                        assert(s@[x - 1] != '\n');
                    }
                }
            }
            if found {
                return true;
            }
            assert(trimmed(s@.subrange(a as int, b as int)) != line@);
            if b == v.len() {
                return false;
            }
            b += 1;
            a = b;
        } else {
            proof {
                assert forall|x: int, y: int| #[trigger] is_line(s@, x, y) implies y != b by {}
            }
            b += 1;
        }
    }
}

/// What comes before the first `sep` in `s`.
pub fn head(s: &str, sep: char) -> (r: String)
    ensures
        r@ == before_first(s@, sep),
{
    let v = to_chars(s);
    let mut i: usize = 0;
    assert(s@.skip(0) == s@);
    assert(s@.take(0) + before_first(s@, sep) == before_first(s@, sep));
    while i < v.len() && v[i] != sep
        invariant
            v@ == s@,
            i <= v@.len(),
            before_first(s@, sep) == s@.take(i as int) + before_first(s@.skip(i as int), sep),
        decreases v.len() - i,
    {
        proof {
            let rest = s@.skip(i as int);
            assert(rest.skip(1) == s@.skip(i + 1));
            assert(s@.take(i as int) + (seq![rest[0]] + before_first(rest.skip(1), sep))
                == s@.take(i + 1) + before_first(s@.skip(i + 1), sep));
        }
        i += 1;
    }
    assert(s@.take(i as int) + before_first(s@.skip(i as int), sep) == s@.subrange(0, i as int));
    from_chars(&v, 0, i)
}

/// The position of `name` in `list`, if it stands there.
pub fn position(list: &[String], name: &str) -> (r: Option<usize>)
    ensures
        match r {
            Some(i) => i < list@.len() && list@[i as int]@ == name@ && !texts(list@).take(
                i as int,
            ).contains(name@),
            None => !texts(list@).contains(name@),
        },
{
    let mut i: usize = 0;
    while i < list.len()
        invariant
            i <= list@.len(),
            !texts(list@).take(i as int).contains(name@),
        decreases list.len() - i,
    {
        if same_text(list[i].as_str(), name) {
            return Some(i);
        }
        proof {
            let t = texts(list@);
            assert(t.take(i + 1) == t.take(i as int).push(t[i as int]));
            assert(!t.take(i + 1).contains(name@)) by {
                if t.take(i + 1).contains(name@) {
                    let k = t.take(i + 1).index_of(name@);
                    assert(k < i ==> t.take(i as int)[k] == name@);
                }
            }
        }
        i += 1;
    }
    assert(texts(list@).take(i as int) == texts(list@));
    None
}

/// Whether `name` stands in `list`.
pub fn lists(list: &[String], name: &str) -> (r: bool)
    ensures
        r == texts(list@).contains(name@),
{
    match position(list, name) {
        Some(i) => {
            assert(texts(list@)[i as int] == name@);
            true
        },
        None => false,
    }
}

/// The texts of a list, each once, in the order in which they first come.
pub open spec fn firsts(list: Seq<Seq<char>>) -> Seq<Seq<char>>
    decreases list.len(),
{
    if list.len() == 0 {
        list
    } else {
        let before = firsts(list.drop_last());
        if before.contains(list.last()) {
            before
        } else {
            before.push(list.last())
        }
    }
}

/// Listing each text once loses none and repeats none.
pub proof fn firsts_lists_each_once(list: Seq<Seq<char>>)
    ensures
        firsts(list).to_set() == list.to_set(),
        firsts(list).no_duplicates(),
    decreases list.len(),
{
    if list.len() > 0 {
        let rest = list.drop_last();
        let before = firsts(rest);
        let next = list.last();
        firsts_lists_each_once(rest);
        assert(list == rest.push(next));
        rest.lemma_push_to_set_commute(next);
        before.lemma_push_to_set_commute(next);
        if before.contains(next) {
            assert(before.to_set().contains(next));
            assert(rest.to_set().insert(next) == rest.to_set());
        }
    }
}

/// The names of a list, each once, in the order in which they first come.
pub fn distinct(list: Vec<String>) -> (r: Vec<String>)
    ensures
        texts(r@) == firsts(texts(list@)),
        texts(r@).to_set() == texts(list@).to_set(),
        texts(r@).no_duplicates(),
{
    let ghost all = texts(list@);
    let mut r: Vec<String> = Vec::new();
    let mut i: usize = 0;
    assert(texts(r@) == firsts(all.take(0)));
    while i < list.len()
        invariant
            i <= list@.len(),
            all == texts(list@),
            texts(r@) == firsts(all.take(i as int)),
        decreases list.len() - i,
    {
        let ghost before = texts(r@);
        proof {
            assert(all[i as int] == list@[i as int]@);
            assert(all.take(i + 1).drop_last() == all.take(i as int));
        }
        if !lists(r.as_slice(), list[i].as_str()) {
            r.push(list[i].clone());
            assert(texts(r@) == before.push(all[i as int]));
        }
        i += 1;
    }
    proof {
        assert(all.take(i as int) == all);
        firsts_lists_each_once(all);
    }
    r
}

/// White space is the tab, the line feed, the vertical tab, the form feed, the carriage
/// return, the space, and the others that Unicode lists.
pub proof fn white_space_is_listed(c: char)
    ensures
        white(c) <==> {
            ||| c == '\t' || c == '\n' || c == '\u{b}' || c == '\u{c}' || c == '\r' || c == ' '
            ||| c == '\u{85}' || c == '\u{a0}' || c == '\u{1680}'
            ||| c == '\u{2000}' || c == '\u{2001}' || c == '\u{2002}' || c == '\u{2003}'
            ||| c == '\u{2004}' || c == '\u{2005}' || c == '\u{2006}' || c == '\u{2007}'
            ||| c == '\u{2008}' || c == '\u{2009}' || c == '\u{200a}'
            ||| c == '\u{2028}' || c == '\u{2029}' || c == '\u{202f}' || c == '\u{205f}'
            ||| c == '\u{3000}'
        },
{
}

proof fn trimmed_start_skips(s: Seq<char>) -> (a: int)
    ensures
        0 <= a <= s.len(),
        trimmed_start(s) == s.skip(a),
        forall|k: int| 0 <= k < a ==> white(#[trigger] s[k]),
        a < s.len() ==> !white(s[a]),
    decreases s.len(),
{
    if s.len() > 0 && white(s[0]) {
        let rest = s.skip(1);
        let a: int = trimmed_start_skips(rest);
        assert(rest.skip(a) == s.skip(a + 1));
        assert forall|k: int| 0 <= k < a + 1 implies white(#[trigger] s[k]) by {
            if k > 0 {
                assert(rest[k - 1] == s[k]);
            }
        }
        a + 1
    } else {
        assert(s.skip(0) == s);
        0
    }
}

proof fn trimmed_end_takes(s: Seq<char>) -> (b: int)
    ensures
        0 <= b <= s.len(),
        trimmed_end(s) == s.take(b),
        forall|k: int| b <= k < s.len() ==> white(#[trigger] s[k]),
        b > 0 ==> !white(s[b - 1]),
    decreases s.len(),
{
    if s.len() > 0 && white(s.last()) {
        let rest = s.drop_last();
        let b: int = trimmed_end_takes(rest);
        assert(rest.take(b) == s.take(b));
        assert forall|k: int| b <= k < s.len() implies white(#[trigger] s[k]) by {
            if k < rest.len() {
                assert(rest[k] == s[k]);
            }
        }
        b
    } else {
        assert(s.take(s.len() as int) == s);
        s.len() as int
    }
}

/// Trimming takes white space off both ends and nothing else: what is left stands in the
/// text in one piece, everything around it is white, and it neither starts nor ends white.
pub proof fn trimming_takes_only_white_ends(s: Seq<char>)
    ensures
        exists|a: int, b: int|
            {
                &&& 0 <= a <= b <= s.len()
                &&& trimmed(s) == #[trigger] s.subrange(a, b)
                &&& forall|k: int| 0 <= k < a || b <= k < s.len() ==> white(#[trigger] s[k])
                &&& a < b ==> !white(s[a]) && !white(s[b - 1])
            },
{
    let a: int = trimmed_start_skips(s);
    let rest = s.skip(a);
    let n: int = trimmed_end_takes(rest);
    let b: int = a + n;
    assert(rest.take(n) == s.subrange(a, b));
    assert forall|k: int| 0 <= k < a || b <= k < s.len() implies white(#[trigger] s[k]) by {
        if b <= k {
            assert(rest[k - a] == s[k]);
        }
    }
    if a < b {
        assert(rest[n - 1] == s[b - 1]);
    }
}

/// A text stands in another where they agree letter for letter.
pub proof fn occurrence_agrees_letter_for_letter(s: Seq<char>, pat: Seq<char>, i: int)
    ensures
        occurs_at(s, pat, i) <==> {
            &&& 0 <= i
            &&& i + pat.len() <= s.len()
            &&& forall|k: int| 0 <= k < pat.len() ==> s[i + k] == #[trigger] pat[k]
        },
{
    if occurs_at(s, pat, i) {
        assert forall|k: int| 0 <= k < pat.len() implies s[i + k] == #[trigger] pat[k] by {
            assert(s.subrange(i, i + pat.len())[k] == s[i + k]);
        }
    }
    if 0 <= i && i + pat.len() <= s.len() && (forall|k: int|
        0 <= k < pat.len() ==> s[i + k] == #[trigger] pat[k]) {
        assert(s.subrange(i, i + pat.len()) == pat);
    }
}

/// A text starts with another, ends with it or holds it exactly where it is made of it
/// and of some text behind it, before it or on both sides.
pub proof fn texts_are_found_in_what_they_make_up(s: Seq<char>, pat: Seq<char>)
    ensures
        begins(s, pat) <==> exists|tail: Seq<char>| s == #[trigger] (pat + tail),
        ends(s, pat) <==> exists|head: Seq<char>| s == #[trigger] (head + pat),
        contains_text(s, pat) <==> exists|head: Seq<char>, tail: Seq<char>|
            s == #[trigger] (head + pat + tail),
{
    let n: int = pat.len() as int;
    if begins(s, pat) {
        assert(s == pat + s.skip(n));
    }
    if exists|tail: Seq<char>| s == #[trigger] (pat + tail) {
        assert(s.subrange(0, n) == pat);
    }
    if ends(s, pat) {
        assert(s == s.take(s.len() - n) + pat);
    }
    if exists|head: Seq<char>| s == #[trigger] (head + pat) {
        assert(s.subrange(s.len() - n, s.len() as int) == pat);
    }
    if contains_text(s, pat) {
        let i: int = choose|i: int| occurs_at(s, pat, i);
        assert(s == s.take(i) + pat + s.skip(i + n));
    }
    if exists|head: Seq<char>, tail: Seq<char>| s == #[trigger] (head + pat + tail) {
        let (head, tail) = choose|head: Seq<char>, tail: Seq<char>|
            s == #[trigger] (head + pat + tail);
        assert(s.subrange(head.len() as int, head.len() + n) == pat);
        assert(occurs_at(s, pat, head.len() as int));
    }
}

/// Replacing everywhere replaces the leftmost occurrence, keeps what stands before it, and
/// goes on behind it.
pub proof fn replaced_all_goes_on_behind(
    head: Seq<char>,
    pat: Seq<char>,
    tail: Seq<char>,
    with: Seq<char>,
)
    requires
        pat.len() > 0,
        forall|j: int| 0 <= j < head.len() ==> !#[trigger] occurs_at(head + pat + tail, pat, j),
    ensures
        replaced_all(head + pat + tail, pat, with) == head + with + replaced_all(tail, pat, with),
    decreases head.len(),
{
    let s = head + pat + tail;
    let n: int = pat.len() as int;
    if head.len() == 0 {
        assert(s.subrange(0, n) == pat);
        assert(s.skip(n) == tail);
        assert(head + with + replaced_all(tail, pat, with) == with + replaced_all(tail, pat, with));
    } else {
        let rest = head.skip(1);
        let short = rest + pat + tail;
        assert(s.skip(1) == short);
        assert(!occurs_at(s, pat, 0));
        assert forall|j: int| 0 <= j < rest.len() implies !#[trigger] occurs_at(short, pat, j) by {
            assert(!occurs_at(s, pat, j + 1));
            if occurs_at(short, pat, j) {
                assert(s.subrange(j + 1, j + 1 + n) == short.subrange(j, j + n));
            }
        }
        replaced_all_goes_on_behind(rest, pat, tail, with);
        assert(seq![s[0]] + (rest + with + replaced_all(tail, pat, with)) == head + with
            + replaced_all(tail, pat, with));
    }
}

/// Replacing everywhere leaves a text alone in which there is nothing to replace.
pub proof fn replaced_all_nowhere(s: Seq<char>, pat: Seq<char>, with: Seq<char>)
    requires
        !contains_text(s, pat),
    ensures
        replaced_all(s, pat, with) == s,
    decreases s.len(),
{
    if s.len() > 0 && pat.len() > 0 {
        let rest = s.skip(1);
        if contains_text(rest, pat) {
            let i: int = choose|i: int| occurs_at(rest, pat, i);
            assert(s.subrange(i + 1, i + 1 + pat.len()) == rest.subrange(i, i + pat.len()));
            assert(occurs_at(s, pat, i + 1));
        }
        replaced_all_nowhere(rest, pat, with);
        assert(!occurs_at(s, pat, 0));
        assert(seq![s[0]] + rest == s);
    }
}

proof fn kept_up_to_the_first_replacement(
    s: Seq<char>,
    pat: Seq<char>,
    with: Seq<char>,
    n: int,
)
    requires
        pat.len() > 0,
        with.len() > 0,
        with[0] == pat[0],
        0 <= n <= replaced_all(s, pat, with).len(),
        forall|k: int| 0 <= k < n ==> #[trigger] replaced_all(s, pat, with)[k] != pat[0],
    ensures
        n <= s.len(),
        s.take(n) == replaced_all(s, pat, with).take(n),
    decreases n,
{
    let r = replaced_all(s, pat, with);
    if n > 0 {
        assert(r[0] != pat[0]);
        assert(s.len() > 0);
        if begins(s, pat) {
            assert(r[0] == with[0]);
        }
        let rest = s.skip(1);
        let tail = replaced_all(rest, pat, with);
        assert(r == seq![s[0]] + tail);
        assert forall|k: int| 0 <= k < n - 1 implies #[trigger] tail[k] != pat[0] by {
            assert(r[k + 1] == tail[k]);
        }
        kept_up_to_the_first_replacement(rest, pat, with, n - 1);
        assert forall|k: int| 0 <= k < n implies s[k] == r[k] by {
            if k > 0 {
                assert(rest.take(n - 1)[k - 1] == tail.take(n - 1)[k - 1]);
            }
        }
    }
}

/// What was put behind every occurrence of a text can be taken out again, which gives the
/// text as it was, as long as the first letter of what was looked for comes in it only once.
pub proof fn insertions_can_be_taken_out(s: Seq<char>, pat: Seq<char>, added: Seq<char>)
    requires
        pat.len() > 0,
        forall|k: int| 0 < k < pat.len() ==> #[trigger] pat[k] != pat[0],
    ensures
        replaced_all(replaced_all(s, pat, pat + added), pat + added, pat) == s,
    decreases s.len(),
{
    let with = pat + added;
    let r = replaced_all(s, pat, with);
    let n: int = pat.len() as int;
    if s.len() > 0 {
        if begins(s, pat) {
            let rest = s.skip(n);
            let tail = replaced_all(rest, pat, with);
            insertions_can_be_taken_out(rest, pat, added);
            assert(r == with + tail);
            assert(r.subrange(0, with.len() as int) == with);
            assert(r.skip(with.len() as int) == tail);
            assert(s == pat + rest);
        } else {
            let rest = s.skip(1);
            let tail = replaced_all(rest, pat, with);
            insertions_can_be_taken_out(rest, pat, added);
            assert(r == seq![s[0]] + tail);
            if begins(r, with) {
                assert forall|k: int| 0 <= k < n implies r[k] == #[trigger] pat[k] by {
                    assert(r.subrange(0, with.len() as int)[k] == with[k]);
                }
                assert forall|k: int| 0 <= k < n - 1 implies #[trigger] tail[k] != pat[0] by {
                    assert(r[k + 1] == tail[k]);
                    assert(pat[k + 1] != pat[0]);
                }
                kept_up_to_the_first_replacement(rest, pat, with, n - 1);
                assert forall|k: int| 0 <= k < n implies s[k] == #[trigger] pat[k] by {
                    if k > 0 {
                        assert(rest.take(n - 1)[k - 1] == tail.take(n - 1)[k - 1]);
                        assert(r[k] == tail[k - 1]);
                    }
                }
                assert(s.subrange(0, n) == pat);
            }
            assert(r.skip(1) == tail);
            assert(seq![s[0]] + rest == s);
        }
    }
}

/// A text has a line where a stretch of it between line feeds, or between one and an end of
/// the text, is that line but for white space around it.
pub proof fn lines_stand_between_line_feeds(s: Seq<char>, line: Seq<char>)
    ensures
        has_line(s, line) <==> exists|a: int, b: int|
            {
                &&& 0 <= a <= b <= s.len()
                &&& a == 0 || s[a - 1] == '\n'
                &&& b == s.len() || s[b] == '\n'
                &&& !s.subrange(a, b).contains('\n')
                &&& trimmed(#[trigger] s.subrange(a, b)) == line
            },
{
    if has_line(s, line) {
        let (a, b) = choose|a: int, b: int| #[trigger]
            is_line(s, a, b) && trimmed(s.subrange(a, b)) == line;
        let part = s.subrange(a, b);
        if part.contains('\n') {
            let k: int = part.index_of('\n');
            assert(s[a + k] == '\n');
        }
    }
    if exists|a: int, b: int|
        {
            &&& 0 <= a <= b <= s.len()
            &&& a == 0 || s[a - 1] == '\n'
            &&& b == s.len() || s[b] == '\n'
            &&& !s.subrange(a, b).contains('\n')
            &&& trimmed(#[trigger] s.subrange(a, b)) == line
        } {
        let (a, b) = choose|a: int, b: int|
            {
                &&& 0 <= a <= b <= s.len()
                &&& a == 0 || s[a - 1] == '\n'
                &&& b == s.len() || s[b] == '\n'
                &&& !s.subrange(a, b).contains('\n')
                &&& trimmed(#[trigger] s.subrange(a, b)) == line
            };
        assert forall|k: int| a <= k < b implies s[k] != '\n' by {
            assert(s.subrange(a, b)[k - a] == s[k]);
        }
        assert(is_line(s, a, b));
    }
}

/// What comes before a separator is what stands in front of the first one, and the whole
/// text where there is none.
pub proof fn head_stops_at_the_separator(head: Seq<char>, sep: char, tail: Seq<char>)
    requires
        !head.contains(sep),
    ensures
        before_first(head, sep) == head,
        before_first(head + seq![sep] + tail, sep) == head,
    decreases head.len(),
{
    let s = head + seq![sep] + tail;
    if head.len() == 0 {
        assert(s[0] == sep);
    } else {
        let rest = head.skip(1);
        assert(head.contains(head[0]));
        if rest.contains(sep) {
            let k: int = rest.index_of(sep);
            assert(head[k + 1] == sep);
        }
        head_stops_at_the_separator(rest, sep, tail);
        assert(s.skip(1) == rest + seq![sep] + tail);
        assert(seq![head[0]] + rest == head);
    }
}

/// Leading characters are taken off to the last of them, and nothing else is.
pub proof fn leading_characters_come_off(s: Seq<char>, c: char)
    ensures
        exists|k: int|
            {
                &&& 0 <= k <= s.len()
                &&& without_leading(s, c) == #[trigger] s.skip(k)
                &&& forall|j: int| 0 <= j < k ==> #[trigger] s[j] == c
                &&& k < s.len() ==> s[k] != c
            },
    decreases s.len(),
{
    if s.len() > 0 && s[0] == c {
        let rest = s.skip(1);
        leading_characters_come_off(rest, c);
        let k: int = choose|k: int|
            {
                &&& 0 <= k <= rest.len()
                &&& without_leading(rest, c) == #[trigger] rest.skip(k)
                &&& forall|j: int| 0 <= j < k ==> #[trigger] rest[j] == c
                &&& k < rest.len() ==> rest[k] != c
            };
        assert(rest.skip(k) == s.skip(k + 1));
        assert forall|j: int| 0 <= j < k + 1 implies #[trigger] s[j] == c by {
            if j > 0 {
                assert(rest[j - 1] == s[j]);
            }
        }
    } else {
        assert(s.skip(0) == s);
    }
}

/// Listed once each, texts stand in the order in which they first came: before the later of
/// two first came, the earlier had come.
pub proof fn firsts_keep_the_order(list: Seq<Seq<char>>, i: int, j: int)
    requires
        0 <= i < j < firsts(list).len(),
    ensures
        exists|m: int|
            {
                &&& 0 <= m < list.len()
                &&& #[trigger] list[m] == firsts(list)[i]
                &&& !list.take(m + 1).contains(firsts(list)[j])
            },
    decreases list.len(),
{
    let rest = list.drop_last();
    let before = firsts(rest);
    let all = firsts(list);
    firsts_lists_each_once(rest);
    if j < before.len() {
        firsts_keep_the_order(rest, i, j);
        let m: int = choose|m: int|
            {
                &&& 0 <= m < rest.len()
                &&& #[trigger] rest[m] == before[i]
                &&& !rest.take(m + 1).contains(before[j])
            };
        assert(rest.take(m + 1) == list.take(m + 1));
        assert(list[m] == all[i]);
    } else {
        assert(all[i] == before[i]);
        assert(before.to_set().contains(before[i]));
        assert(rest.contains(before[i]));
        let m: int = rest.index_of(before[i]);
        assert(list[m] == all[i]);
        if list.take(m + 1).contains(all[j]) {
            let k: int = list.take(m + 1).index_of(all[j]);
            assert(rest[k] == all[j]);
            assert(rest.to_set().contains(all[j]));
            assert(before.contains(all[j]));
        }
    }
}

/// The texts of a list are those of its strings, place by place.
pub proof fn texts_stand_place_by_place(v: Seq<String>, o: Option<String>)
    ensures
        texts(v).len() == v.len(),
        forall|i: int| 0 <= i < v.len() ==> #[trigger] texts(v)[i] == v[i]@,
        opt_text(o) is Some <==> o is Some,
        o matches Some(s) ==> opt_text(o) == Some(s@),
{
}

} // verus!
