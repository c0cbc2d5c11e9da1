//! Text helpers shared by the shell and the server: decimal numerals,
//! splitting on a separator, string comparison and replacement.

use vstd::prelude::*;

verus! {

/// The character of a decimal digit `d` (for `0 <= d < 10`).
pub open spec fn digit_char(d: int) -> char {
    if d == 0 { '0' }
    else if d == 1 { '1' }
    else if d == 2 { '2' }
    else if d == 3 { '3' }
    else if d == 4 { '4' }
    else if d == 5 { '5' }
    else if d == 6 { '6' }
    else if d == 7 { '7' }
    else if d == 8 { '8' }
    else { '9' }
}

/// The decimal numeral of `n`, without leading zeros.
pub open spec fn decimal(n: nat) -> Seq<char>
    decreases n,
{
    if n < 10 {
        seq![digit_char(n as int)]
    } else {
        decimal(n / 10).push(digit_char((n % 10) as int))
    }
}

fn digit_str(d: u64) -> (s: &'static str)
    requires
        d < 10,
    ensures
        s@ == seq![digit_char(d as int)],
{
    match d {
        0 => { proof { reveal_strlit("0"); } "0" },
        1 => { proof { reveal_strlit("1"); } "1" },
        2 => { proof { reveal_strlit("2"); } "2" },
        3 => { proof { reveal_strlit("3"); } "3" },
        4 => { proof { reveal_strlit("4"); } "4" },
        5 => { proof { reveal_strlit("5"); } "5" },
        6 => { proof { reveal_strlit("6"); } "6" },
        7 => { proof { reveal_strlit("7"); } "7" },
        8 => { proof { reveal_strlit("8"); } "8" },
        _ => { proof { reveal_strlit("9"); } "9" },
    }
}

/// The decimal numeral of `n`.
pub fn decimal_string(n: u64) -> (s: String)
    ensures
        s@ == decimal(n as nat),
    decreases n,
{
    if n < 10 {
        String::from_str(digit_str(n))
    } else {
        let mut s = decimal_string(n / 10);
        s.append(digit_str(n % 10));
        s
    }
}


/// The views of a sequence of strings.
pub open spec fn strs(v: Seq<String>) -> Seq<Seq<char>> {
    v.map_values(|x: String| x@)
}

/// `s` cut at every occurrence of `c`: the pieces between the separators,
/// empty ones included, in order (always at least one piece).
pub open spec fn split_char(s: Seq<char>, c: char) -> Seq<Seq<char>>
    decreases s.len(),
{
    if s.len() == 0 {
        seq![Seq::<char>::empty()]
    } else {
        let r = split_char(s.drop_last(), c);
        if s.last() == c {
            r.push(Seq::<char>::empty())
        } else {
            r.update(r.len() - 1, r.last().push(s.last()))
        }
    }
}

/// The non-empty members of `ws`, in order.
pub open spec fn nonempty_only(ws: Seq<Seq<char>>) -> Seq<Seq<char>>
    decreases ws.len(),
{
    if ws.len() == 0 {
        ws
    } else {
        let r = nonempty_only(ws.drop_last());
        if ws.last().len() == 0 {
            r
        } else {
            r.push(ws.last())
        }
    }
}

/// The words of `s`: the non-empty pieces between single spaces.
pub open spec fn words(s: Seq<char>) -> Seq<Seq<char>> {
    nonempty_only(split_char(s, ' '))
}

pub proof fn lemma_split_char_nonempty(s: Seq<char>, c: char)
    ensures
        split_char(s, c).len() >= 1,
    decreases s.len(),
{
    if s.len() > 0 {
        lemma_split_char_nonempty(s.drop_last(), c);
    }
}

pub proof fn lemma_split_char_pieces(s: Seq<char>, c: char)
    ensures
        forall|i: int| 0 <= i < split_char(s, c).len() ==> !(#[trigger] split_char(s, c)[i]).contains(c),
    decreases s.len(),
{
    lemma_split_char_nonempty(s, c);
    if s.len() > 0 {
        let r = split_char(s.drop_last(), c);
        lemma_split_char_pieces(s.drop_last(), c);
        lemma_split_char_nonempty(s.drop_last(), c);
        if s.last() != c {
            let piece = r.last().push(s.last());
            assert forall|i: int| 0 <= i < split_char(s, c).len() implies !(#[trigger] split_char(s, c)[i]).contains(c) by {
                if i == r.len() - 1 {
                    assert(split_char(s, c)[i] == piece);
                    if piece.contains(c) {
                        let k = choose|k: int| 0 <= k < piece.len() && piece[k] == c;
                        if k < r.last().len() {
                            assert(r.last()[k] == c);
                            assert(r.last().contains(c));
                        }
                    }
                } else {
                    assert(split_char(s, c)[i] == r[i]);
                }
            }
        } else {
            assert forall|i: int| 0 <= i < split_char(s, c).len() implies !(#[trigger] split_char(s, c)[i]).contains(c) by {
                if i < r.len() {
                    assert(split_char(s, c)[i] == r[i]);
                }
            }
        }
    }
}

pub proof fn lemma_nonempty_only(ws: Seq<Seq<char>>)
    ensures
        forall|i: int| 0 <= i < nonempty_only(ws).len() ==> {
            &&& (#[trigger] nonempty_only(ws)[i]).len() > 0
            &&& ws.contains(nonempty_only(ws)[i])
        },
    decreases ws.len(),
{
    if ws.len() > 0 {
        let r = nonempty_only(ws.drop_last());
        lemma_nonempty_only(ws.drop_last());
        assert forall|i: int| 0 <= i < nonempty_only(ws).len() implies {
            &&& (#[trigger] nonempty_only(ws)[i]).len() > 0
            &&& ws.contains(nonempty_only(ws)[i])
        } by {
            if i < r.len() {
                assert(nonempty_only(ws)[i] == r[i]);
                let j = choose|j: int| 0 <= j < ws.drop_last().len() && ws.drop_last()[j] == r[i];
                assert(ws[j] == r[i]);
            } else {
                assert(nonempty_only(ws)[i] == ws.last());
                assert(ws[ws.len() - 1] == ws.last());
            }
        }
    }
}

/// Every word of a line is non-empty and holds no space.
pub proof fn lemma_words_are_nonblank(s: Seq<char>)
    ensures
        forall|i: int| 0 <= i < words(s).len() ==> (#[trigger] words(s)[i]).len() > 0 && !words(s)[i].contains(' '),
{
    lemma_split_char_pieces(s, ' ');
    lemma_nonempty_only(split_char(s, ' '));
    assert forall|i: int| 0 <= i < words(s).len() implies (#[trigger] words(s)[i]).len() > 0 && !words(s)[i].contains(' ') by {
        let ws = split_char(s, ' ');
        assert(ws.contains(words(s)[i]));
        let j = choose|j: int| 0 <= j < ws.len() && ws[j] == words(s)[i];
        assert(!ws[j].contains(' '));
    }
}

pub proof fn lemma_split_append_plain(x: Seq<char>, b: Seq<char>, c: char)
    requires
        !b.contains(c),
    ensures
        split_char(x + b, c) == split_char(x, c).update(
            split_char(x, c).len() - 1,
            split_char(x, c).last() + b,
        ),
    decreases b.len(),
{
    lemma_split_char_nonempty(x, c);
    let sx = split_char(x, c);
    if b.len() == 0 {
        assert(x + b =~= x);
        assert(sx.last() + b =~= sx.last());
        assert(sx.update(sx.len() - 1, sx.last() + b) =~= sx);
    } else {
        let b1 = b.drop_last();
        assert(!b1.contains(c)) by {
            if b1.contains(c) {
                let k = choose|k: int| 0 <= k < b1.len() && b1[k] == c;
                assert(b[k] == c);
            }
        }
        lemma_split_append_plain(x, b1, c);
        assert((x + b).drop_last() =~= x + b1);
        assert((x + b).last() == b.last());
        assert(b.last() != c) by {
            assert(b[b.len() - 1] == b.last());
        }
        let r = split_char(x + b1, c);
        assert(split_char(x + b, c) == r.update(r.len() - 1, r.last().push(b.last())));
        assert(r.last() == sx.last() + b1);
        assert((sx.last() + b1).push(b.last()) =~= sx.last() + b);
        assert(split_char(x + b, c) =~= sx.update(sx.len() - 1, sx.last() + b));
    }
}

/// Cutting the members of `ls` joined by `c` at each `c` gives `ls` back,
/// where no member holds `c`.
pub proof fn lemma_split_joined(ls: Seq<Seq<char>>, c: char)
    requires
        ls.len() >= 1,
        forall|i: int| 0 <= i < ls.len() ==> !(#[trigger] ls[i]).contains(c),
    ensures
        split_char(joined(ls, seq![c]), c) == ls,
    decreases ls.len(),
{
    let e = Seq::<char>::empty();
    if ls.len() == 1 {
        lemma_split_append_plain(e, ls[0], c);
        assert(e + ls[0] =~= ls[0]);
        assert(split_char(e, c) =~= seq![e]);
        assert(split_char(joined(ls, seq![c]), c) =~= ls);
    } else {
        let j = joined(ls.drop_last(), seq![c]);
        lemma_split_joined(ls.drop_last(), c);
        assert(j.push(c).drop_last() =~= j);
        assert(split_char(j.push(c), c) == split_char(j, c).push(e));
        assert(!ls.last().contains(c)) by {
            assert(ls[ls.len() - 1] == ls.last());
        }
        lemma_split_append_plain(j.push(c), ls.last(), c);
        assert(j + seq![c] + ls.last() =~= j.push(c) + ls.last());
        assert(e + ls.last() =~= ls.last());
        assert(split_char(joined(ls, seq![c]), c) =~= ls);
    }
}

/// Cutting `x`, a separator `c` and `y` at each `c` gives the pieces of `x`
/// followed by the pieces of `y`.
pub proof fn lemma_split_around_separator(x: Seq<char>, y: Seq<char>, c: char)
    ensures
        split_char(x.push(c) + y, c) == split_char(x, c) + split_char(y, c),
    decreases y.len(),
{
    let e = Seq::<char>::empty();
    lemma_split_char_nonempty(x, c);
    assert(x.push(c).drop_last() =~= x);
    assert(split_char(x.push(c), c) == split_char(x, c).push(e));
    if y.len() == 0 {
        assert(x.push(c) + y =~= x.push(c));
        assert(split_char(y, c) =~= seq![e]);
        assert(split_char(x, c).push(e) =~= split_char(x, c) + seq![e]);
    } else {
        let y1 = y.drop_last();
        lemma_split_around_separator(x, y1, c);
        lemma_split_char_nonempty(y1, c);
        assert((x.push(c) + y).drop_last() =~= x.push(c) + y1);
        assert((x.push(c) + y).last() == y.last());
        let sx = split_char(x, c);
        let sy1 = split_char(y1, c);
        let r = split_char(x.push(c) + y1, c);
        assert(r == sx + sy1);
        if y.last() == c {
            assert(split_char(x.push(c) + y, c) == r.push(e));
            assert(split_char(y, c) == sy1.push(e));
            assert((sx + sy1).push(e) =~= sx + sy1.push(e));
        } else {
            assert(split_char(x.push(c) + y, c) == r.update(r.len() - 1, r.last().push(y.last())));
            assert(split_char(y, c) == sy1.update(sy1.len() - 1, sy1.last().push(y.last())));
            assert(r.last() == sy1.last());
            assert((sx + sy1).update(r.len() - 1, sy1.last().push(y.last())) =~= sx + sy1.update(
                sy1.len() - 1,
                sy1.last().push(y.last()),
            ));
        }
    }
}

/// A text without `c` is a single piece.
pub proof fn lemma_split_plain(x: Seq<char>, c: char)
    requires
        !x.contains(c),
    ensures
        split_char(x, c) == seq![x],
{
    let e = Seq::<char>::empty();
    lemma_split_append_plain(e, x, c);
    assert(e + x =~= x);
    assert(split_char(e, c) =~= seq![e]);
    assert(seq![e].update(0, e + x) =~= seq![x]);
}

pub proof fn lemma_decimal_digits(n: nat)
    ensures
        forall|k: int| 0 <= k < decimal(n).len() ==> '0' <= #[trigger] decimal(n)[k] <= '9',
    decreases n,
{
    if n >= 10 {
        lemma_decimal_digits(n / 10);
        assert forall|k: int| 0 <= k < decimal(n).len() implies '0' <= #[trigger] decimal(n)[k] <= '9' by {
            if k < decimal(n / 10).len() {
                assert(decimal(n)[k] == decimal(n / 10)[k]);
            }
        }
    }
}

/// Whether the strings `a` and `b` hold the same characters.
pub fn str_eq(a: &str, b: &str) -> (r: bool)
    ensures
        r == (a@ == b@),
{
    String::from_str(a) == String::from_str(b)
}

/// `s` cut at every occurrence of `c`.
pub fn split_on(s: &str, c: char) -> (pieces: Vec<String>)
    ensures
        strs(pieces@) == split_char(s@, c),
{
    let n = s.unicode_len();
    let mut pieces: Vec<String> = Vec::new();
    let mut start: usize = 0;
    let mut i: usize = 0;
    assert(s@.take(0) =~= Seq::<char>::empty());
    assert(strs(pieces@).push(s@.subrange(0, 0)) =~= split_char(s@.take(0), c));
    while i < n
        invariant
            n == s@.len(),
            start <= i <= n,
            strs(pieces@).push(s@.subrange(start as int, i as int)) == split_char(s@.take(i as int), c),
        decreases n - i,
    {
        let ch = s.get_char(i);
        assert(s@.take(i + 1).drop_last() =~= s@.take(i as int));
        assert(s@.take(i + 1).last() == ch);
        proof { lemma_split_char_nonempty(s@.take(i as int), c); }
        if ch == c {
            let piece = String::from_str(s.substring_char(start, i));
            let ghost old_pieces = pieces@;
            pieces.push(piece);
            assert(strs(pieces@) =~= strs(old_pieces).push(s@.subrange(start as int, i as int)));
            start = i + 1;
            assert(split_char(s@.take(i + 1), c) == split_char(s@.take(i as int), c).push(Seq::<char>::empty()));
            assert(s@.subrange(start as int, i + 1) =~= Seq::<char>::empty());
            assert(strs(pieces@).push(s@.subrange(start as int, i + 1)) =~= split_char(s@.take(i + 1), c));
        } else {
            assert(s@.subrange(start as int, i + 1) =~= s@.subrange(start as int, i as int).push(ch));
            let ghost r = split_char(s@.take(i as int), c);
            assert(split_char(s@.take(i + 1), c) == r.update(r.len() - 1, r.last().push(ch)));
            assert(r.last() == s@.subrange(start as int, i as int));
            assert(r.len() == strs(pieces@).len() + 1);
            assert forall|k: int| 0 <= k < strs(pieces@).len() implies r[k] == strs(pieces@)[k] by {
                assert(r[k] == strs(pieces@).push(s@.subrange(start as int, i as int))[k]);
            }
            assert(strs(pieces@).push(s@.subrange(start as int, i + 1)) =~= split_char(s@.take(i + 1), c));
        }
        i = i + 1;
    }
    let piece = String::from_str(s.substring_char(start, n));
    let ghost old_pieces = pieces@;
    pieces.push(piece);
    assert(strs(pieces@) =~= strs(old_pieces).push(s@.subrange(start as int, n as int)));
    assert(s@.take(n as int) =~= s@);
    pieces
}

/// The non-empty pieces of `s` between occurrences of `c`.
pub fn split_nonempty(s: &str, c: char) -> (ws: Vec<String>)
    ensures
        strs(ws@) == nonempty_only(split_char(s@, c)),
{
    let pieces = split_on(s, c);
    let mut ws: Vec<String> = Vec::new();
    let mut j: usize = 0;
    assert(strs(pieces@).take(0) =~= Seq::<Seq<char>>::empty());
    while j < pieces.len()
        invariant
            j <= pieces.len(),
            strs(pieces@) == split_char(s@, c),
            strs(ws@) == nonempty_only(strs(pieces@).take(j as int)),
        decreases pieces.len() - j,
    {
        assert(strs(pieces@).take(j + 1).drop_last() =~= strs(pieces@).take(j as int));
        assert(strs(pieces@).take(j + 1).last() == pieces[j as int]@);
        if pieces[j].unicode_len() > 0 {
            let ghost old_ws = ws@;
            ws.push(pieces[j].clone());
            assert(strs(ws@) =~= strs(old_ws).push(pieces@[j as int]@));
        }
        j = j + 1;
    }
    assert(strs(pieces@).take(pieces.len() as int) =~= strs(pieces@));
    ws
}

/// The words of `line`: the non-empty pieces between single spaces.
pub fn split_words(line: &str) -> (ws: Vec<String>)
    ensures
        strs(ws@) == words(line@),
{
    split_nonempty(line, ' ')
}

/// `s` with every occurrence of `pat`, taken from left to right without
/// overlap, replaced by `rep`.
pub open spec fn replaced(s: Seq<char>, pat: Seq<char>, rep: Seq<char>) -> Seq<char>
    decreases s.len(),
{
    if pat.len() == 0 || s.len() < pat.len() {
        s
    } else if s.take(pat.len() as int) == pat {
        rep + replaced(s.skip(pat.len() as int), pat, rep)
    } else {
        seq![s[0]] + replaced(s.drop_first(), pat, rep)
    }
}

/// `pat` occurs in `s` at position `i`.
pub open spec fn occurs_at(s: Seq<char>, pat: Seq<char>, i: int) -> bool {
    0 <= i && i + pat.len() <= s.len() && s.subrange(i, i + pat.len()) == pat
}

/// `pat` occurs somewhere in `s`.
pub open spec fn occurs_in(s: Seq<char>, pat: Seq<char>) -> bool {
    exists|i: int| occurs_at(s, pat, i)
}

/// `i` is the position of the first `w` in `ws`.
pub open spec fn is_first(ws: Seq<Seq<char>>, w: Seq<char>, i: int) -> bool {
    &&& 0 <= i < ws.len()
    &&& ws[i] == w
    &&& forall|j: int| 0 <= j < i ==> ws[j] != w
}

/// The position of the first `w` in `ws` (meaningful where `ws` holds `w`).
pub open spec fn first_index(ws: Seq<Seq<char>>, w: Seq<char>) -> int {
    choose|i: int| is_first(ws, w, i)
}

pub proof fn lemma_first_index(ws: Seq<Seq<char>>, w: Seq<char>, i: int)
    requires
        is_first(ws, w, i),
    ensures
        first_index(ws, w) == i,
{
    let k = first_index(ws, w);
    assert(is_first(ws, w, k));
    if k < i {
        assert(ws[k] != w);
    }
    if i < k {
        assert(ws[i] != w);
    }
}

fn matches_at(s: &str, n: usize, i: usize, pat: &str, m: usize) -> (r: bool)
    requires
        n == s@.len(),
        m == pat@.len(),
        i + m <= n,
    ensures
        r == (s@.subrange(i as int, i + m) == pat@),
{
    let mut k: usize = 0;
    while k < m
        invariant
            n == s@.len(),
            m == pat@.len(),
            i + m <= n,
            k <= m,
            forall|j: int| 0 <= j < k ==> s@[i + j] == pat@[j],
        decreases m - k,
    {
        if s.get_char(i + k) != pat.get_char(k) {
            assert(s@.subrange(i as int, i + m)[k as int] != pat@[k as int]);
            return false;
        }
        k = k + 1;
    }
    assert(s@.subrange(i as int, i + m) =~= pat@);
    true
}

/// Replacing a pattern that does not occur changes nothing.
pub proof fn lemma_replaced_without_match(s: Seq<char>, pat: Seq<char>, rep: Seq<char>)
    requires
        pat.len() > 0,
        !occurs_in(s, pat),
    ensures
        replaced(s, pat, rep) == s,
    decreases s.len(),
{
    if s.len() >= pat.len() {
        assert(s.subrange(0, pat.len() as int) =~= s.take(pat.len() as int));
        assert(!occurs_at(s, pat, 0));
        let t = s.drop_first();
        assert forall|k: int| !occurs_at(t, pat, k) by {
            if occurs_at(t, pat, k) {
                assert(s.subrange(k + 1, k + 1 + pat.len()) =~= t.subrange(k, k + pat.len()));
                assert(occurs_at(s, pat, k + 1));
            }
        }
        lemma_replaced_without_match(t, pat, rep);
        assert(seq![s[0]] + t =~= s);
    }
}

/// Whether `pat` occurs in `s`.
pub fn contains_str(s: &str, pat: &str) -> (r: bool)
    ensures
        r == occurs_in(s@, pat@),
{
    let n = s.unicode_len();
    let m = pat.unicode_len();
    if m > n {
        assert forall|i: int| !occurs_at(s@, pat@, i) by {}
        return false;
    }
    let last = n - m;
    let mut i: usize = 0;
    loop
        invariant
            n == s@.len(),
            m == pat@.len(),
            last == n - m,
            i <= last,
            forall|j: int| 0 <= j < i ==> !occurs_at(s@, pat@, j),
        decreases last - i,
    {
        if matches_at(s, n, i, pat, m) {
            assert(occurs_at(s@, pat@, i as int));
            return true;
        }
        if i == last {
            assert forall|j: int| !occurs_at(s@, pat@, j) by {
                if 0 <= j < i {
                }
            }
            return false;
        }
        i = i + 1;
    }
}

/// `s` with every occurrence of `pat` (left to right, without overlap)
/// replaced by `rep`.
pub fn replace_all(s: &str, pat: &str, rep: &str) -> (r: String)
    requires
        pat@.len() > 0,
    ensures
        r@ == replaced(s@, pat@, rep@),
{
    let n = s.unicode_len();
    let m = pat.unicode_len();
    let mut out = String::new();
    let mut i: usize = 0;
    assert(s@.skip(0) =~= s@);
    while i < n
        invariant
            n == s@.len(),
            m == pat@.len(),
            m > 0,
            i <= n,
            replaced(s@, pat@, rep@) == out@ + replaced(s@.skip(i as int), pat@, rep@),
        decreases n - i,
    {
        let ghost rest = s@.skip(i as int);
        if m <= n - i && matches_at(s, n, i, pat, m) {
            assert(rest.take(m as int) =~= s@.subrange(i as int, i + m));
            assert(rest.skip(m as int) =~= s@.skip(i + m));
            out.append(rep);
            assert(replaced(rest, pat@, rep@) == rep@ + replaced(s@.skip(i + m), pat@, rep@));
            assert(out@ + replaced(s@.skip(i + m), pat@, rep@) =~= replaced(s@, pat@, rep@));
            i = i + m;
        } else {
            let ghost old_out = out@;
            out.append(s.substring_char(i, i + 1));
            assert(rest.drop_first() =~= s@.skip(i + 1));
            proof {
                if rest.len() < m {
                    assert(replaced(rest, pat@, rep@) == rest);
                    assert(replaced(s@.skip(i + 1), pat@, rep@) == s@.skip(i + 1));
                    assert(rest =~= seq![s@[i as int]] + s@.skip(i + 1));
                } else {
                    assert(rest.take(m as int) =~= s@.subrange(i as int, i + m));
                    assert(replaced(rest, pat@, rep@) == seq![rest[0]] + replaced(rest.drop_first(), pat@, rep@));
                }
            }
            assert(s@.subrange(i as int, i + 1) =~= seq![s@[i as int]]);
            assert(out@ + replaced(s@.skip(i + 1), pat@, rep@) =~= replaced(s@, pat@, rep@));
            i = i + 1;
        }
    }
    assert(s@.skip(n as int) =~= Seq::<char>::empty());
    assert(out@ + Seq::<char>::empty() =~= out@);
    out
}

/// The position of the first `w` in `ws`, if any.
pub fn find_word(ws: &Vec<String>, w: &str) -> (r: Option<usize>)
    ensures
        match r {
            Some(i) => is_first(strs(ws@), w@, i as int),
            None => !strs(ws@).contains(w@),
        },
{
    let mut i: usize = 0;
    while i < ws.len()
        invariant
            i <= ws.len(),
            forall|j: int| 0 <= j < i ==> strs(ws@)[j] != w@,
        decreases ws.len() - i,
    {
        if str_eq(ws[i].as_str(), w) {
            return Some(i);
        }
        i = i + 1;
    }
    assert forall|j: int| 0 <= j < strs(ws@).len() implies strs(ws@)[j] != w@ by {}
    None
}


/// Copies of `v[from..to]`.
pub fn copy_range(v: &Vec<String>, from: usize, to: usize) -> (r: Vec<String>)
    requires
        from <= to <= v.len(),
    ensures
        strs(r@) == strs(v@).subrange(from as int, to as int),
{
    let mut r: Vec<String> = Vec::new();
    let mut i: usize = from;
    while i < to
        invariant
            from <= i <= to <= v.len(),
            strs(r@) == strs(v@).subrange(from as int, i as int),
        decreases to - i,
    {
        let ghost old_r = r@;
        r.push(v[i].clone());
        assert(strs(r@) =~= strs(old_r).push(v@[i as int]@));
        assert(strs(v@).subrange(from as int, i + 1) =~= strs(v@).subrange(from as int, i as int).push(v@[i as int]@));
        i = i + 1;
    }
    r
}

/// The members of `ls` with `sep` between each two of them.
pub open spec fn joined(ls: Seq<Seq<char>>, sep: Seq<char>) -> Seq<char>
    decreases ls.len(),
{
    if ls.len() == 0 {
        Seq::<char>::empty()
    } else if ls.len() == 1 {
        ls[0]
    } else {
        joined(ls.drop_last(), sep) + sep + ls.last()
    }
}

/// The members of `ls` with `sep` between each two of them.
pub fn join(ls: &Vec<String>, sep: &str) -> (r: String)
    ensures
        r@ == joined(strs(ls@), sep@),
{
    let mut r = String::new();
    let mut i: usize = 0;
    assert(strs(ls@).take(0) =~= Seq::<Seq<char>>::empty());
    while i < ls.len()
        invariant
            i <= ls.len(),
            r@ == joined(strs(ls@).take(i as int), sep@),
        decreases ls.len() - i,
    {
        assert(strs(ls@).take(i + 1).drop_last() =~= strs(ls@).take(i as int));
        assert(strs(ls@).take(i + 1).last() == ls@[i as int]@);
        if i > 0 {
            r.append(sep);
        } else {
            assert(r@ =~= Seq::<char>::empty());
        }
        r.append(ls[i].as_str());
        i = i + 1;
    }
    assert(strs(ls@).take(ls.len() as int) =~= strs(ls@));
    r
}

} // verus!
