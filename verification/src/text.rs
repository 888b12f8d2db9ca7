//! Text helpers with their mathematical meaning: substring search,
//! splitting, joining, padding and decimal rendering of integers.
use vstd::prelude::*;

verus! {

/// `pat` occurs in `s` starting at index `i`.
pub open spec fn occurs_at(s: Seq<char>, pat: Seq<char>, i: int) -> bool {
    &&& 0 <= i
    &&& i + pat.len() <= s.len()
    &&& s.subrange(i, i + pat.len()) == pat
}

/// `pat` occurs somewhere in `s` (what `str::contains` answers for a `&str` pattern).
pub open spec fn contains_seq(s: Seq<char>, pat: Seq<char>) -> bool {
    exists|i: int| occurs_at(s, pat, i)
}

/// Whether `pat` matches `s` at position `i`.
fn matches_at(s: &str, pat: &str, i: usize, n: usize, m: usize) -> (r: bool)
    requires
        n == s@.len(),
        m == pat@.len(),
        i + m <= n,
    ensures
        r == occurs_at(s@, pat@, i as int),
{
    let mut j: usize = 0;
    while j < m
        invariant
            n == s@.len(),
            m == pat@.len(),
            i + m <= n,
            j <= m,
            forall|k: int| 0 <= k < j ==> s@[i + k] == pat@[k],
        decreases m - j,
    {
        if s.get_char(i + j) != pat.get_char(j) {
            assert(s@.subrange(i as int, i + m)[j as int] != pat@[j as int]);
            return false;
        }
        j = j + 1;
    }
    assert(s@.subrange(i as int, i + m) =~= pat@);
    true
}

/// Whether `pat` occurs in `s`.
pub fn contains(s: &str, pat: &str) -> (r: bool)
    ensures
        r == contains_seq(s@, pat@),
{
    let n = s.unicode_len();
    let m = pat.unicode_len();
    if m > n {
        return false;
    }
    let last = n - m;
    let mut i: usize = 0;
    loop
        invariant
            n == s@.len(),
            m == pat@.len(),
            m <= n,
            last == n - m,
            i <= last,
            forall|k: int| 0 <= k < i ==> !occurs_at(s@, pat@, k),
        ensures
            forall|k: int| 0 <= k <= last ==> !occurs_at(s@, pat@, k),
        decreases last - i,
    {
        if matches_at(s, pat, i, n, m) {
            return true;
        }
        if i == last {
            break;
        }
        i = i + 1;
    }
    false
}

/// The first position at or after `i` where `pat` occurs in `s`.
pub open spec fn find_from(s: Seq<char>, pat: Seq<char>, i: int) -> Option<int>
    decreases s.len() + 1 - i,
{
    if i < 0 || i + pat.len() > s.len() {
        None
    } else if occurs_at(s, pat, i) {
        Some(i)
    } else {
        find_from(s, pat, i + 1)
    }
}

/// What `find_from` finds is an occurrence, and the first one from `i` on.
pub proof fn lemma_find_from(s: Seq<char>, pat: Seq<char>, i: int)
    ensures
        find_from(s, pat, i) matches Some(j) ==> {
            &&& i <= j
            &&& occurs_at(s, pat, j)
            &&& forall|k: int| i <= k < j ==> !occurs_at(s, pat, k)
        },
        0 <= i && find_from(s, pat, i) is None ==> forall|k: int| i <= k ==> !occurs_at(s, pat, k),
    decreases s.len() + 1 - i,
{
    if i < 0 || i + pat.len() > s.len() {
        if i >= 0 {
            assert forall|k: int| i <= k implies !occurs_at(s, pat, k) by {}
        }
    } else if occurs_at(s, pat, i) {
    } else {
        lemma_find_from(s, pat, i + 1);
    }
}

/// The pieces of `s` between the occurrences of `sep`, found from left to
/// right without overlap (what `str::split` yields for a non-empty `&str`
/// separator).
pub open spec fn split_seq(s: Seq<char>, sep: Seq<char>) -> Seq<Seq<char>>
    decreases s.len(),
{
    if sep.len() == 0 {
        seq![s]
    } else {
        match find_from(s, sep, 0) {
            Some(i) => {
                proof {
                    lemma_find_from(s, sep, 0);
                }
                seq![s.subrange(0, i)] + split_seq(s.subrange(i + sep.len(), s.len() as int), sep)
            },
            None => seq![s],
        }
    }
}

/// The views of a sequence of strings.
pub open spec fn texts(v: Seq<String>) -> Seq<Seq<char>> {
    v.map_values(|x: String| x@)
}

/// The first occurrence of `pat` in `s` at or after `start`.
fn find(s: &str, pat: &str, start: usize) -> (r: Option<usize>)
    ensures
        r matches Some(j) ==> find_from(s@, pat@, start as int) == Some(j as int),
        r is None ==> find_from(s@, pat@, start as int) is None,
{
    let n = s.unicode_len();
    let m = pat.unicode_len();
    if m > n || start > n - m {
        return None;
    }
    let last = n - m;
    let mut i: usize = start;
    loop
        invariant
            n == s@.len(),
            m == pat@.len(),
            m <= n,
            last == n - m,
            start <= i <= last,
            find_from(s@, pat@, start as int) == find_from(s@, pat@, i as int),
        ensures
            find_from(s@, pat@, start as int) is None,
        decreases last - i,
    {
        if matches_at(s, pat, i, n, m) {
            return Some(i);
        }
        if i == last {
            break;
        }
        i = i + 1;
    }
    None
}

/// Owned copy of a slice of text.
fn owned(s: &str) -> (r: String)
    ensures
        r@ == s@,
{
    s.to_owned()
}

/// Splits `s` at every occurrence of `sep`.
pub fn split(s: &str, sep: &str) -> (r: Vec<String>)
    requires
        sep@.len() > 0,
    ensures
        texts(r@) == split_seq(s@, sep@),
    decreases s@.len(),
{
    match find(s, sep, 0) {
        Some(i) => {
            proof {
                lemma_find_from(s@, sep@, 0);
            }
            let n = s.unicode_len();
            let m = sep.unicode_len();
            let head = owned(s.substring_char(0, i));
            let rest = s.substring_char(i + m, n);
            let mut tail = split(rest, sep);
            let ghost tail_texts = texts(tail@);
            let mut out: Vec<String> = Vec::new();
            out.push(head);
            out.append(&mut tail);
            assert(texts(out@) =~= seq![s@.subrange(0, i as int)] + tail_texts);
            out
        },
        None => {
            let mut out: Vec<String> = Vec::new();
            out.push(owned(s));
            assert(texts(out@) =~= seq![s@]);
            out
        },
    }
}

/// The pieces joined with `sep` between neighbours (what `[String]::join` gives).
pub open spec fn join_seq(parts: Seq<Seq<char>>, sep: Seq<char>) -> Seq<char>
    decreases parts.len(),
{
    if parts.len() == 0 {
        Seq::empty()
    } else if parts.len() == 1 {
        parts[0]
    } else {
        join_seq(parts.drop_last(), sep) + sep + parts.last()
    }
}

/// Joins `parts` with `sep` between neighbours.
pub fn join(parts: &Vec<String>, sep: &str) -> (r: String)
    ensures
        r@ == join_seq(texts(parts@), sep@),
{
    let mut out = String::new();
    let ghost all = texts(parts@);
    let n = parts.len();
    for i in 0..n
        invariant
            n == parts@.len(),
            all == texts(parts@),
            out@ == join_seq(all.take(i as int), sep@),
    {
        assert(all.take(i + 1).drop_last() =~= all.take(i as int));
        if i != 0 {
            out.append(sep);
        }
        out.append(parts[i].as_str());
    }
    assert(all.take(n as int) =~= all);
    out
}

/// The character of a decimal digit.
pub open spec fn digit(d: nat) -> char {
    if d == 0 {
        '0'
    } else if d == 1 {
        '1'
    } else if d == 2 {
        '2'
    } else if d == 3 {
        '3'
    } else if d == 4 {
        '4'
    } else if d == 5 {
        '5'
    } else if d == 6 {
        '6'
    } else if d == 7 {
        '7'
    } else if d == 8 {
        '8'
    } else {
        '9'
    }
}

/// The decimal representation of `n`, most significant digit first and
/// without leading zeros (what `Display` writes for an unsigned integer).
pub open spec fn decimal_seq(n: nat) -> Seq<char>
    decreases n,
{
    if n < 10 {
        seq![digit(n)]
    } else {
        decimal_seq(n / 10).push(digit(n % 10))
    }
}

/// The text of one decimal digit.
fn digit_text(d: u64) -> (r: &'static str)
    requires
        d < 10,
    ensures
        r@ == seq![digit(d as nat)],
{
    if d == 0 {
        proof { reveal_strlit("0"); }
        "0"
    } else if d == 1 {
        proof { reveal_strlit("1"); }
        "1"
    } else if d == 2 {
        proof { reveal_strlit("2"); }
        "2"
    } else if d == 3 {
        proof { reveal_strlit("3"); }
        "3"
    } else if d == 4 {
        proof { reveal_strlit("4"); }
        "4"
    } else if d == 5 {
        proof { reveal_strlit("5"); }
        "5"
    } else if d == 6 {
        proof { reveal_strlit("6"); }
        "6"
    } else if d == 7 {
        proof { reveal_strlit("7"); }
        "7"
    } else if d == 8 {
        proof { reveal_strlit("8"); }
        "8"
    } else {
        proof { reveal_strlit("9"); }
        "9"
    }
}

/// Renders `n` in decimal.
pub fn decimal(n: u64) -> (r: String)
    ensures
        r@ == decimal_seq(n as nat),
    decreases n,
{
    if n < 10 {
        owned(digit_text(n))
    } else {
        let mut out = decimal(n / 10);
        out.append(digit_text(n % 10));
        out
    }
}

/// `n` copies of the character `c`.
pub open spec fn repeated(c: char, n: nat) -> Seq<char> {
    Seq::new(n, |i: int| c)
}

/// `s` followed by spaces up to `width` characters (what the `{:<width$}`
/// format writes); `s` itself when it is already that long.
pub open spec fn padded(s: Seq<char>, width: nat) -> Seq<char> {
    if s.len() < width {
        s + repeated(' ', (width - s.len()) as nat)
    } else {
        s
    }
}

/// A line of `n` dashes.
pub fn dashes(n: usize) -> (r: String)
    ensures
        r@ == repeated('-', n as nat),
{
    let mut out = String::new();
    proof { reveal_strlit("-"); }
    for i in 0..n
        invariant
            out@ == repeated('-', i as nat),
            "-"@ == seq!['-'],
    {
        out.append("-");
        assert(out@ =~= repeated('-', (i + 1) as nat));
    }
    out
}

/// `s` padded with spaces on the right to `width` characters.
pub fn pad_right(s: &str, width: usize) -> (r: String)
    ensures
        r@ == padded(s@, width as nat),
{
    let len = s.unicode_len();
    let mut out = owned(s);
    if len < width {
        proof { reveal_strlit(" "); }
        for i in len..width
            invariant
                len == s@.len(),
                out@ == s@ + repeated(' ', (i - len) as nat),
                " "@ == seq![' '],
        {
            out.append(" ");
            assert(out@ =~= s@ + repeated(' ', (i + 1 - len) as nat));
        }
    }
    out
}

/// Joining peels off the first piece as well as the last.
pub proof fn lemma_join_front(parts: Seq<Seq<char>>, sep: Seq<char>)
    requires
        parts.len() >= 2,
    ensures
        join_seq(parts, sep) == parts[0] + sep + join_seq(parts.drop_first(), sep),
    decreases parts.len(),
{
    let init = parts.drop_last();
    let tail = parts.drop_first();
    if parts.len() == 2 {
        assert(join_seq(init, sep) == init[0]);
        assert(join_seq(tail, sep) == tail[0]);
        assert(join_seq(parts, sep) == join_seq(init, sep) + sep + parts.last());
    } else {
        lemma_join_front(init, sep);
        assert(init.drop_first() =~= tail.drop_last());
        assert(tail.last() == parts.last());
        assert(join_seq(tail, sep) == join_seq(tail.drop_last(), sep) + sep + tail.last());
        assert(join_seq(parts, sep) == join_seq(init, sep) + sep + parts.last());
        assert(join_seq(parts, sep) =~= parts[0] + sep + join_seq(tail, sep));
    }
}

/// In `x + ", " + rest`, where `x` holds no ", ", the first ", " is the one
/// right after `x`.
proof fn lemma_first_separator(x: Seq<char>, rest: Seq<char>)
    requires
        !contains_seq(x, ", "@),
    ensures
        find_from(x + ", "@ + rest, ", "@, 0) == Some(x.len() as int),
{
    reveal_strlit(", ");
    let sep = ", "@;
    let s = x + sep + rest;
    let n = x.len() as int;
    assert(s.subrange(n, n + 2) =~= sep);
    assert(occurs_at(s, sep, n));
    assert forall|k: int| 0 <= k < n implies !occurs_at(s, sep, k) by {
        if k + 2 <= n {
            if occurs_at(s, sep, k) {
                assert(s.subrange(k, k + 2) =~= x.subrange(k, k + 2));
                assert(occurs_at(x, sep, k));
            }
        } else {
            assert(s[k + 1] == ',');
            if occurs_at(s, sep, k) {
                assert(s.subrange(k, k + 2)[1] == ' ');
            }
        }
    }
    lemma_find_from(s, sep, 0);
}

/// A text without ", " splits into itself alone.
proof fn lemma_split_single(x: Seq<char>)
    requires
        !contains_seq(x, ", "@),
    ensures
        split_seq(x, ", "@) == seq![x],
{
    reveal_strlit(", ");
    lemma_find_from(x, ", "@, 0);
    if find_from(x, ", "@, 0) is Some {
        assert(occurs_at(x, ", "@, find_from(x, ", "@, 0)->0));
    }
}

/// Splitting at ", " what was joined with ", " gives back the pieces, where
/// none of them holds ", " itself.
pub proof fn lemma_split_join(parts: Seq<Seq<char>>)
    requires
        parts.len() >= 1,
        forall|i: int| 0 <= i < parts.len() ==> !contains_seq(#[trigger] parts[i], ", "@),
    ensures
        split_seq(join_seq(parts, ", "@), ", "@) == parts,
    decreases parts.len(),
{
    reveal_strlit(", ");
    let sep = ", "@;
    let x = parts[0];
    if parts.len() == 1 {
        assert(join_seq(parts, sep) == x);
        lemma_split_single(x);
        assert(seq![x] =~= parts);
    } else {
        let tail = parts.drop_first();
        lemma_join_front(parts, sep);
        let rest = join_seq(tail, sep);
        let s = x + sep + rest;
        lemma_first_separator(x, rest);
        let n = x.len() as int;
        assert(s.subrange(0, n) =~= x);
        assert(s.subrange(n + 2, s.len() as int) =~= rest);
        assert forall|i: int| 0 <= i < tail.len() implies !contains_seq(#[trigger] tail[i], ", "@) by {
            assert(tail[i] == parts[i + 1]);
        }
        lemma_split_join(tail);
        assert(split_seq(s, sep) == seq![x] + split_seq(rest, sep));
        assert(seq![x] + tail =~= parts);
    }
}

} // verus!
