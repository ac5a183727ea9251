//! Verified string utilities: splitting, trimming, digit parsing and
//! case-insensitive search, each proved against a sequence-level model.

use vstd::prelude::*;

verus! {

// ---------------------------------------------------------------------------
// Character classes
// ---------------------------------------------------------------------------

/// The whitespace characters recognised by the splitting and trimming
/// utilities (the ASCII whitespace set).
pub open spec fn is_ws_char(c: char) -> bool {
    c == ' ' || c == '\t' || c == '\n' || c == '\r' || c == '\u{b}' || c == '\u{c}'
}

/// Decimal digit.
pub open spec fn is_digit_char(c: char) -> bool {
    '0' as int <= c as int && c as int <= '9' as int
}

/// Numeric value of a decimal digit.
pub open spec fn digit_val(c: char) -> int {
    c as int - '0' as int
}

fn is_ws_exec(c: char) -> (r: bool)
    ensures
        r == is_ws_char(c),
{
    c == ' ' || c == '\t' || c == '\n' || c == '\r' || c == '\u{b}' || c == '\u{c}'
}

// ---------------------------------------------------------------------------
// Splitting
// ---------------------------------------------------------------------------

/// The views of a vector of strings.
pub open spec fn seq_views(v: Seq<String>) -> Seq<Seq<char>> {
    v.map_values(|x: String| x@)
}

/// The views of a vector of string pairs.
pub open spec fn pair_views(s: Seq<(String, String)>) -> Seq<(Seq<char>, Seq<char>)> {
    s.map_values(|p: (String, String)| (p.0@, p.1@))
}

/// Split a sequence at every character satisfying `sep`, keeping empty
/// pieces: the result always has one piece more than there are separators.
pub open spec fn split_by(s: Seq<char>, sep: spec_fn(char) -> bool) -> Seq<Seq<char>>
    decreases s.len(),
{
    if s.len() == 0 {
        seq![Seq::<char>::empty()]
    } else if sep(s[0]) {
        seq![Seq::<char>::empty()] + split_by(s.skip(1), sep)
    } else {
        let rest = split_by(s.skip(1), sep);
        seq![seq![s[0]] + rest[0]] + rest.skip(1)
    }
}

pub proof fn lemma_split_by_nonempty(s: Seq<char>, sep: spec_fn(char) -> bool)
    ensures
        split_by(s, sep).len() >= 1,
    decreases s.len(),
{
    if s.len() > 0 {
        lemma_split_by_nonempty(s.skip(1), sep);
    }
}

/// Appending one character either opens a fresh empty piece (separator) or
/// extends the last piece.
pub proof fn lemma_split_by_push(s: Seq<char>, c: char, sep: spec_fn(char) -> bool)
    ensures
        sep(c) ==> split_by(s.push(c), sep) == split_by(s, sep).push(Seq::<char>::empty()),
        !sep(c) ==> split_by(s.push(c), sep) == split_by(s, sep).update(
            split_by(s, sep).len() - 1,
            split_by(s, sep).last().push(c),
        ),
    decreases s.len(),
{
    lemma_split_by_nonempty(s, sep);
    let t = s.push(c);
    assert(t.len() == s.len() + 1);
    if s.len() == 0 {
        assert(t[0] == c);
        assert(t.skip(1) =~= Seq::<char>::empty());
        assert(split_by(t.skip(1), sep) == seq![Seq::<char>::empty()]);
        assert(split_by(s, sep) == seq![Seq::<char>::empty()]);
        if sep(c) {
            assert(split_by(t, sep) == seq![Seq::<char>::empty()] + seq![Seq::<char>::empty()]);
            assert(seq![Seq::<char>::empty()] + seq![Seq::<char>::empty()] =~= seq![
                Seq::<char>::empty(),
            ].push(Seq::<char>::empty()));
        } else {
            assert(split_by(t, sep) == seq![seq![c] + Seq::<char>::empty()] + seq![
                Seq::<char>::empty(),
            ].skip(1));
            assert(seq![c] + Seq::<char>::empty() =~= Seq::<char>::empty().push(c));
            assert(split_by(t, sep) =~= seq![Seq::<char>::empty().push(c)]);
            assert(split_by(s, sep).update(0, split_by(s, sep).last().push(c)) =~= seq![
                Seq::<char>::empty().push(c),
            ]);
        }
    } else {
        assert(t[0] == s[0]);
        assert(t.skip(1) =~= s.skip(1).push(c));
        lemma_split_by_push(s.skip(1), c, sep);
        lemma_split_by_nonempty(s.skip(1), sep);
        let r = split_by(s.skip(1), sep);
        let rt = split_by(t.skip(1), sep);
        if sep(s[0]) {
            assert(split_by(t, sep) == seq![Seq::<char>::empty()] + rt);
            assert(split_by(s, sep) == seq![Seq::<char>::empty()] + r);
            if sep(c) {
                assert(rt == r.push(Seq::<char>::empty()));
                assert(seq![Seq::<char>::empty()] + r.push(Seq::<char>::empty()) =~= (seq![
                    Seq::<char>::empty(),
                ] + r).push(Seq::<char>::empty()));
            } else {
                assert(rt == r.update(r.len() - 1, r.last().push(c)));
                assert((seq![Seq::<char>::empty()] + r).last() == r.last());
                assert(seq![Seq::<char>::empty()] + r.update(r.len() - 1, r.last().push(c)) =~= (
                seq![Seq::<char>::empty()] + r).update((1 + r.len()) - 1, r.last().push(c)));
            }
        } else {
            assert(split_by(t, sep) == seq![seq![t[0]] + rt[0]] + rt.skip(1));
            assert(split_by(s, sep) == seq![seq![s[0]] + r[0]] + r.skip(1));
            if sep(c) {
                assert(rt == r.push(Seq::<char>::empty()));
                assert(rt[0] == r[0]);
                assert(rt.skip(1) =~= r.skip(1).push(Seq::<char>::empty()));
                assert(seq![seq![s[0]] + r[0]] + r.skip(1).push(Seq::<char>::empty()) =~= (
                seq![seq![s[0]] + r[0]] + r.skip(1)).push(Seq::<char>::empty()));
            } else {
                assert(rt == r.update(r.len() - 1, r.last().push(c)));
                let full = seq![seq![s[0]] + r[0]] + r.skip(1);
                assert(full.len() == r.len());
                if r.len() == 1 {
                    assert(rt[0] == r[0].push(c));
                    assert(rt.skip(1) =~= r.skip(1));
                    assert(r.skip(1) =~= Seq::<Seq<char>>::empty());
                    assert(full.last() == seq![s[0]] + r[0]);
                    assert(seq![s[0]] + r[0].push(c) =~= (seq![s[0]] + r[0]).push(c));
                    assert(split_by(t, sep) =~= full.update(
                        full.len() - 1,
                        full.last().push(c),
                    ));
                } else {
                    assert(rt[0] == r[0]);
                    assert(rt.skip(1) =~= r.skip(1).update(
                        r.skip(1).len() - 1,
                        r.last().push(c),
                    ));
                    assert(r.skip(1).last() == r.last());
                    assert(full.last() == r.last());
                    assert(seq![seq![s[0]] + r[0]] + r.skip(1).update(
                        r.skip(1).len() - 1,
                        r.last().push(c),
                    ) =~= full.update(full.len() - 1, full.last().push(c)));
                }
            }
        }
    }
}

/// The predicate recognising one fixed separator character.
pub open spec fn char_eq_fn(sep: char) -> spec_fn(char) -> bool {
    |c: char| c == sep
}

/// Split on a single character, keeping empty pieces (the model of
/// `str::split(sep)`).
pub open spec fn split_on(s: Seq<char>, sep: char) -> Seq<Seq<char>> {
    split_by(s, char_eq_fn(sep))
}

/// Split a string at every occurrence of `sep`, keeping empty pieces.
pub fn split_char(s: &str, sep: char) -> (r: Vec<String>)
    ensures
        seq_views(r@) == split_on(s@, sep),
{
    let n = s.unicode_len();
    let mut r: Vec<String> = Vec::new();
    let mut start: usize = 0;
    let mut i: usize = 0;
    while i < n
        invariant
            start <= i <= n,
            n == s@.len(),
            seq_views(r@).push(s@.subrange(start as int, i as int)) =~~= split_by(
                s@.subrange(0, i as int),
                char_eq_fn(sep),
            ),
        decreases n - i,
    {
        let ghost pre = s@.subrange(0, i as int);
        let c = s.get_char(i);
        proof {
            assert(s@.subrange(0, i + 1 as int) =~= pre.push(s@[i as int]));
            lemma_split_by_push(pre, s@[i as int], char_eq_fn(sep));
            lemma_split_by_nonempty(pre, char_eq_fn(sep));
        }
        if c == sep {
            let piece = s.substring_char(start, i).to_owned();
            r.push(piece);
            start = i + 1;
            proof {
                assert(seq_views(r@).push(s@.subrange(start as int, i + 1 as int)) =~~= split_by(
                    s@.subrange(0, i + 1 as int),
                    char_eq_fn(sep),
                ));
            }
        } else {
            proof {
                assert(s@.subrange(start as int, i + 1 as int) =~= s@.subrange(
                    start as int,
                    i as int,
                ).push(s@[i as int]));
                assert(seq_views(r@).push(s@.subrange(start as int, i + 1 as int)) =~~= split_by(
                    s@.subrange(0, i + 1 as int),
                    char_eq_fn(sep),
                ));
            }
        }
        i = i + 1;
    }
    let piece = s.substring_char(start, n).to_owned();
    r.push(piece);
    proof {
        assert(s@.subrange(0, n as int) =~= s@);
        assert(seq_views(r@) =~~= split_by(s@, char_eq_fn(sep)));
    }
    r
}

/// The whitespace predicate as a value, so that every use names the same
/// function.
pub open spec fn ws_fn() -> spec_fn(char) -> bool {
    |c: char| is_ws_char(c)
}

/// The non-empty-piece predicate as a value.
pub open spec fn nonempty_fn() -> spec_fn(Seq<char>) -> bool {
    |p: Seq<char>| p.len() > 0
}

/// The model of `str::split_whitespace`: maximal non-empty runs between
/// whitespace characters.
pub open spec fn split_ws(s: Seq<char>) -> Seq<Seq<char>> {
    split_by(s, ws_fn()).filter(nonempty_fn())
}

/// Split a string on runs of whitespace, dropping empty pieces.
pub fn split_whitespace_vec(s: &str) -> (r: Vec<String>)
    ensures
        seq_views(r@) == split_ws(s@),
{
    let n = s.unicode_len();
    let mut r: Vec<String> = Vec::new();
    let mut start: usize = 0;
    let mut i: usize = 0;
    proof {
        assert(s@.subrange(0, 0) =~= Seq::<char>::empty());
        assert(split_by(Seq::<char>::empty(), ws_fn()) == seq![Seq::<char>::empty()]);
        assert(seq![Seq::<char>::empty()].drop_last() =~= Seq::<Seq<char>>::empty());
        reveal_with_fuel(Seq::filter, 1);
        assert(Seq::<Seq<char>>::empty().filter(nonempty_fn()) =~~= seq_views(r@));
    }
    while i < n
        invariant
            start <= i <= n,
            n == s@.len(),
            split_by(s@.subrange(0, i as int), ws_fn()).last() == s@.subrange(
                start as int,
                i as int,
            ),
            seq_views(r@) =~~= split_by(s@.subrange(0, i as int), ws_fn()).drop_last().filter(
                nonempty_fn(),
            ),
        decreases n - i,
    {
        let ghost pre = s@.subrange(0, i as int);
        let ghost prev = split_by(pre, ws_fn());
        let c = s.get_char(i);
        proof {
            assert(s@.subrange(0, i + 1 as int) =~= pre.push(s@[i as int]));
            lemma_split_by_push(pre, s@[i as int], ws_fn());
            lemma_split_by_nonempty(pre, ws_fn());
        }
        if is_ws_exec(c) {
            if start < i {
                let piece = s.substring_char(start, i).to_owned();
                r.push(piece);
            }
            proof {
                let next = split_by(s@.subrange(0, i + 1 as int), ws_fn());
                assert(next == prev.push(Seq::<char>::empty()));
                assert(next.last() =~= s@.subrange(i + 1 as int, i + 1 as int));
                assert(next.drop_last() =~= prev);
                assert(prev =~= prev.drop_last().push(prev.last()));
                lemma_filter_push(prev.drop_last(), prev.last(), nonempty_fn());
                if start < i {
                    assert(seq_views(r@) =~~= next.drop_last().filter(nonempty_fn()));
                } else {
                    assert(prev.last().len() == 0);
                    assert(seq_views(r@) =~~= next.drop_last().filter(nonempty_fn()));
                }
            }
            start = i + 1;
        } else {
            proof {
                let next = split_by(s@.subrange(0, i + 1 as int), ws_fn());
                assert(next == prev.update(prev.len() - 1, prev.last().push(s@[i as int])));
                assert(next.last() == prev.last().push(s@[i as int]));
                assert(s@.subrange(start as int, i + 1 as int) =~= s@.subrange(
                    start as int,
                    i as int,
                ).push(s@[i as int]));
                assert(next.drop_last() =~= prev.drop_last());
            }
        }
        i = i + 1;
    }
    proof {
        assert(s@.subrange(0, n as int) =~= s@);
    }
    let ghost full = split_by(s@, ws_fn());
    if start < n {
        let piece = s.substring_char(start, n).to_owned();
        r.push(piece);
        proof {
            assert(full =~= full.drop_last().push(full.last()));
            lemma_filter_push(full.drop_last(), full.last(), nonempty_fn());
            assert(seq_views(r@) =~~= split_ws(s@));
        }
    } else {
        proof {
            assert(full.last().len() == 0);
            assert(full =~= full.drop_last().push(full.last()));
            lemma_filter_push(full.drop_last(), full.last(), nonempty_fn());
            assert(seq_views(r@) =~~= split_ws(s@));
        }
    }
    r
}

/// Filtering distributes over `push`.
pub proof fn lemma_filter_push<A>(s: Seq<A>, x: A, pred: spec_fn(A) -> bool)
    ensures
        pred(x) ==> s.push(x).filter(pred) == s.filter(pred).push(x),
        !pred(x) ==> s.push(x).filter(pred) == s.filter(pred),
{
    reveal(Seq::filter);
    assert(s.push(x).drop_last() =~= s);
}

// ---------------------------------------------------------------------------
// Lines
// ---------------------------------------------------------------------------

/// Strip at most one trailing carriage return.
pub open spec fn strip_cr(p: Seq<char>) -> Seq<char> {
    if p.len() > 0 && p.last() == '\r' {
        p.drop_last()
    } else {
        p
    }
}

/// The carriage-return stripper as a value.
pub open spec fn strip_cr_fn() -> spec_fn(Seq<char>) -> Seq<char> {
    |p: Seq<char>| strip_cr(p)
}

/// The model of `str::lines`: split on `\n`, strip one `\r` before each
/// line break, and drop the piece after a final line break.
pub open spec fn lines_of(s: Seq<char>) -> Seq<Seq<char>> {
    let ps = split_on(s, '\n');
    let body = ps.take(ps.len() - 1).map_values(strip_cr_fn());
    if ps.last().len() == 0 {
        body
    } else {
        body.push(ps.last())
    }
}

/// Split a string into its lines, as `str::lines` does.
pub fn split_lines(s: &str) -> (r: Vec<String>)
    ensures
        seq_views(r@) == lines_of(s@),
{
    let pieces = split_char(s, '\n');
    proof {
        lemma_split_by_nonempty(s@, char_eq_fn('\n'));
        assert(seq_views(pieces@).len() == pieces@.len());
    }
    let np = pieces.len();
    let mut r: Vec<String> = Vec::new();
    let mut i: usize = 0;
    while i < np - 1
        invariant
            np == pieces@.len() >= 1,
            seq_views(pieces@) == split_on(s@, '\n'),
            i <= np - 1,
            r@.len() == i,
            forall|j: int| 0 <= j < i ==> #[trigger] r@[j]@ == strip_cr(pieces@[j]@),
        decreases np - 1 - i,
    {
        let piece = &pieces[i];
        let n = piece.as_str().unicode_len();
        let stripped: String;
        if n > 0 && piece.as_str().get_char(n - 1) == '\r' {
            stripped = piece.as_str().substring_char(0, n - 1).to_owned();
            proof {
                assert(piece@.subrange(0, n - 1 as int) =~= piece@.drop_last());
                assert(stripped@ == strip_cr(pieces@[i as int]@));
            }
        } else {
            stripped = piece.clone();
            proof {
                assert(n > 0 ==> piece@.last() == piece@[n - 1]);
                assert(stripped@ == strip_cr(pieces@[i as int]@));
            }
        }
        r.push(stripped);
        i = i + 1;
    }
    let last = &pieces[np - 1];
    if last.as_str().unicode_len() > 0 {
        r.push(last.clone());
    }
    proof {
        let ps = split_on(s@, '\n');
        let body = ps.take(ps.len() - 1).map_values(strip_cr_fn());
        assert(forall|j: int|
            0 <= j < np - 1 ==> #[trigger] body[j] == strip_cr(pieces@[j]@));
        assert(ps.last() == pieces@[np - 1]@);
        assert(seq_views(r@) =~~= lines_of(s@));
    }
    r
}

// ---------------------------------------------------------------------------
// Trimming
// ---------------------------------------------------------------------------

pub open spec fn trim_start_spec(s: Seq<char>) -> Seq<char>
    decreases s.len(),
{
    if s.len() > 0 && is_ws_char(s[0]) {
        trim_start_spec(s.skip(1))
    } else {
        s
    }
}

pub open spec fn trim_end_spec(s: Seq<char>) -> Seq<char>
    decreases s.len(),
{
    if s.len() > 0 && is_ws_char(s.last()) {
        trim_end_spec(s.drop_last())
    } else {
        s
    }
}

/// The model of `str::trim`: leading and trailing whitespace removed.
pub open spec fn trim_spec(s: Seq<char>) -> Seq<char> {
    trim_end_spec(trim_start_spec(s))
}

/// Remove leading and trailing whitespace.
pub fn trim_str(s: &str) -> (r: String)
    ensures
        r@ == trim_spec(s@),
{
    let n = s.unicode_len();
    let mut a: usize = 0;
    proof {
        assert(s@.subrange(0, n as int) =~= s@);
    }
    while a < n && is_ws_exec(s.get_char(a))
        invariant
            a <= n,
            n == s@.len(),
            trim_start_spec(s@) == trim_start_spec(s@.subrange(a as int, n as int)),
        decreases n - a,
    {
        proof {
            assert(s@.subrange(a as int, n as int).skip(1) =~= s@.subrange(a + 1 as int, n as int));
        }
        a = a + 1;
    }
    proof {
        assert(trim_start_spec(s@) == s@.subrange(a as int, n as int));
    }
    let mut b: usize = n;
    while b > a && is_ws_exec(s.get_char(b - 1))
        invariant
            a <= b <= n,
            n == s@.len(),
            trim_end_spec(s@.subrange(a as int, n as int)) == trim_end_spec(
                s@.subrange(a as int, b as int),
            ),
        decreases b,
    {
        proof {
            assert(s@.subrange(a as int, b as int).drop_last() =~= s@.subrange(
                a as int,
                b - 1 as int,
            ));
        }
        b = b - 1;
    }
    proof {
        assert(trim_end_spec(s@.subrange(a as int, b as int)) == s@.subrange(a as int, b as int));
    }
    s.substring_char(a, b).to_owned()
}

// ---------------------------------------------------------------------------
// Splitting once
// ---------------------------------------------------------------------------

/// The model of `str::split_once` at the first whitespace character: the
/// text before it and everything after it, or `None` when there is none.
pub open spec fn split_once_ws(s: Seq<char>) -> Option<(Seq<char>, Seq<char>)>
    decreases s.len(),
{
    if s.len() == 0 {
        None
    } else if is_ws_char(s[0]) {
        Some((Seq::empty(), s.skip(1)))
    } else {
        match split_once_ws(s.skip(1)) {
            Some(p) => Some((seq![s[0]] + p.0, p.1)),
            None => None,
        }
    }
}

proof fn lemma_split_once_ws_at(s: Seq<char>, j: int)
    requires
        0 <= j < s.len(),
        is_ws_char(s[j]),
        forall|k: int| 0 <= k < j ==> !is_ws_char(s[k]),
    ensures
        split_once_ws(s) == Some((s.take(j), s.skip(j + 1))),
    decreases j,
{
    if j == 0 {
        assert(s.take(0) =~= Seq::<char>::empty());
    } else {
        assert(forall|k: int| 0 <= k < j - 1 ==> !is_ws_char(s.skip(1)[k]));
        assert(s.skip(1)[j - 1] == s[j]);
        lemma_split_once_ws_at(s.skip(1), j - 1);
        assert(seq![s[0]] + s.skip(1).take(j - 1) =~= s.take(j));
        assert(s.skip(1).skip(j) =~= s.skip(j + 1));
    }
}

proof fn lemma_split_once_ws_none(s: Seq<char>)
    requires
        forall|k: int| 0 <= k < s.len() ==> !is_ws_char(s[k]),
    ensures
        split_once_ws(s) == None::<(Seq<char>, Seq<char>)>,
    decreases s.len(),
{
    if s.len() > 0 {
        assert(forall|k: int| 0 <= k < s.skip(1).len() ==> !is_ws_char(s.skip(1)[k]));
        lemma_split_once_ws_none(s.skip(1));
    }
}

/// Split at the first whitespace character, as the branch listing's
/// ahead/behind field asks for.
pub fn split_once_whitespace(s: &str) -> (r: Option<(String, String)>)
    ensures
        match r {
            Some(p) => split_once_ws(s@) == Some((p.0@, p.1@)),
            None => split_once_ws(s@) == None::<(Seq<char>, Seq<char>)>,
        },
{
    let n = s.unicode_len();
    let mut j: usize = 0;
    while j < n
        invariant
            j <= n,
            n == s@.len(),
            forall|k: int| 0 <= k < j ==> !is_ws_char(s@[k]),
        decreases n - j,
    {
        if is_ws_exec(s.get_char(j)) {
            let left = s.substring_char(0, j).to_owned();
            let right = s.substring_char(j + 1, n).to_owned();
            proof {
                lemma_split_once_ws_at(s@, j as int);
                assert(s@.subrange(0, j as int) =~= s@.take(j as int));
                assert(s@.subrange(j + 1 as int, n as int) =~= s@.skip(j + 1));
            }
            return Some((left, right));
        }
        j = j + 1;
    }
    proof {
        lemma_split_once_ws_none(s@);
    }
    None
}

// ---------------------------------------------------------------------------
// Joining
// ---------------------------------------------------------------------------

/// Join pieces with a `|` between each pair (the inverse of [`split_on`]
/// at `|`).
pub open spec fn join_pipe(ps: Seq<Seq<char>>) -> Seq<char>
    decreases ps.len(),
{
    if ps.len() == 0 {
        Seq::empty()
    } else if ps.len() == 1 {
        ps[0]
    } else {
        join_pipe(ps.drop_last()) + seq!['|'] + ps.last()
    }
}

/// Splitting on pipes and rejoining reconstructs the text exactly: nothing
/// is truncated or reordered, however many pipes the text holds.
pub proof fn lemma_join_pipe_inverts_split(s: Seq<char>)
    ensures
        join_pipe(split_on(s, '|')) == s,
    decreases s.len(),
{
    lemma_split_by_nonempty(s, char_eq_fn('|'));
    if s.len() == 0 {
        assert(split_on(s, '|') == seq![Seq::<char>::empty()]);
    } else {
        let p = s.drop_last();
        let c = s.last();
        lemma_join_pipe_inverts_split(p);
        assert(s =~= p.push(c));
        lemma_split_by_push(p, c, char_eq_fn('|'));
        lemma_split_by_nonempty(p, char_eq_fn('|'));
        let sp = split_on(p, '|');
        if c == '|' {
            assert(split_on(s, '|') == sp.push(Seq::<char>::empty()));
            assert(sp.push(Seq::<char>::empty()).drop_last() =~= sp);
            assert(join_pipe(sp.push(Seq::<char>::empty())) =~= p.push(c));
        } else {
            let upd = sp.update(sp.len() - 1, sp.last().push(c));
            assert(split_on(s, '|') == upd);
            if sp.len() == 1 {
                assert(upd =~= seq![sp[0].push(c)]);
                assert(join_pipe(upd) == sp[0].push(c));
                assert(sp[0] == join_pipe(sp));
                assert(join_pipe(upd) =~= p.push(c));
            } else {
                assert(upd.drop_last() =~= sp.drop_last());
                assert(upd.last() == sp.last().push(c));
                assert(join_pipe(upd) == join_pipe(sp.drop_last()) + seq!['|'] + sp.last().push(
                    c,
                ));
                assert(join_pipe(upd) =~= (join_pipe(sp.drop_last()) + seq!['|'] + sp.last()).push(
                    c,
                ));
                assert(join_pipe(upd) =~= p.push(c));
            }
        }
    }
}

/// Join the pieces from index `from` on with `|` separators.
pub fn join_with_pipe(parts: &Vec<String>, from: usize) -> (r: String)
    requires
        from < parts@.len(),
    ensures
        r@ == join_pipe(seq_views(parts@).skip(from as int)),
{
    let n = parts.len();
    let mut acc: String = parts[from].clone();
    let mut j: usize = from + 1;
    proof {
        assert(seq_views(parts@).subrange(from as int, from + 1 as int) =~= seq![
            parts@[from as int]@,
        ]);
    }
    while j < parts.len()
        invariant
            from < j <= parts@.len(),
            acc@ == join_pipe(seq_views(parts@).subrange(from as int, j as int)),
        decreases parts@.len() - j,
    {
        proof {
            reveal_strlit("|");
        }
        acc.append("|");
        acc.append(parts[j].as_str());
        proof {
            let sub1 = seq_views(parts@).subrange(from as int, j + 1 as int);
            assert(sub1.drop_last() =~= seq_views(parts@).subrange(from as int, j as int));
            assert(sub1.last() == parts@[j as int]@);
            assert("|"@ =~= seq!['|']);
        }
        j = j + 1;
    }
    proof {
        assert(seq_views(parts@).subrange(from as int, parts@.len() as int) =~= seq_views(
            parts@,
        ).skip(from as int));
    }
    acc
}

// ---------------------------------------------------------------------------
// Searching
// ---------------------------------------------------------------------------

/// Whether `c` occurs in `s`.
pub open spec fn has_char(s: Seq<char>, c: char) -> bool {
    exists|i: int| 0 <= i < s.len() && s[i] == c
}

/// Whether a string contains a character.
pub fn str_contains_char(s: &str, c: char) -> (r: bool)
    ensures
        r == has_char(s@, c),
{
    let n = s.unicode_len();
    let mut i: usize = 0;
    while i < n
        invariant
            i <= n,
            n == s@.len(),
            forall|j: int| 0 <= j < i ==> s@[j] != c,
        decreases n - i,
    {
        if s.get_char(i) == c {
            return true;
        }
        i = i + 1;
    }
    false
}

/// Whether the first character is a decimal digit.
pub fn starts_with_digit(s: &str) -> (r: bool)
    ensures
        r == (s@.len() > 0 && is_digit_char(s@[0])),
{
    if s.unicode_len() == 0 {
        return false;
    }
    let c = s.get_char(0);
    let u = c as u32;
    u >= 48 && u <= 57
}

/// `a` matches `b` up to ASCII case folding, where `b` is expected to be a
/// lowercase pattern character.
pub open spec fn ci_eq(a: char, b: char) -> bool {
    a == b || (65 <= a as int <= 90 && a as int + 32 == b as int)
}

/// The lowercase folding of `hay` matches `needle` at position `k`.
pub open spec fn ci_match_at(hay: Seq<char>, needle: Seq<char>, k: int) -> bool {
    forall|j: int| 0 <= j < needle.len() ==> ci_eq(hay[k + j], needle[j])
}

/// The model of `hay.to_lowercase().contains(needle)` for an ASCII lowercase
/// `needle`.
pub open spec fn contains_ci(hay: Seq<char>, needle: Seq<char>) -> bool {
    exists|k: int| 0 <= k <= hay.len() - needle.len() && ci_match_at(hay, needle, k)
}

fn ci_eq_exec(a: char, b: char) -> (r: bool)
    ensures
        r == ci_eq(a, b),
{
    a == b || (a as u32 >= 65 && a as u32 <= 90 && a as u32 + 32 == b as u32)
}

/// Case-insensitive substring search (ASCII folding of `hay` against an
/// already-lowercase `needle`).
pub fn str_contains_ci(hay: &str, needle: &str) -> (r: bool)
    ensures
        r == contains_ci(hay@, needle@),
{
    let n = hay.unicode_len();
    let m = needle.unicode_len();
    if m > n {
        return false;
    }
    let mut k: usize = 0;
    while k <= n - m
        invariant
            m <= n,
            n == hay@.len(),
            m == needle@.len(),
            k <= n - m + 1,
            forall|kk: int| 0 <= kk < k ==> !ci_match_at(hay@, needle@, kk),
        decreases n - m + 1 - k,
    {
        let mut j: usize = 0;
        let mut matched = true;
        while matched && j < m
            invariant
                j <= m,
                m <= n,
                k <= n - m,
                n == hay@.len(),
                m == needle@.len(),
                matched ==> forall|jj: int| 0 <= jj < j ==> ci_eq(hay@[k + jj], needle@[jj]),
                !matched ==> !ci_match_at(hay@, needle@, k as int),
            decreases m - j + (if matched { 1int } else { 0int }),
        {
            let a = hay.get_char(k + j);
            let b = needle.get_char(j);
            if ci_eq_exec(a, b) {
                j = j + 1;
            } else {
                matched = false;
            }
        }
        if matched {
            assert(ci_match_at(hay@, needle@, k as int));
            return true;
        }
        k = k + 1;
    }
    false
}

// ---------------------------------------------------------------------------
// Digit-string parsing
// ---------------------------------------------------------------------------

pub open spec fn all_digits(s: Seq<char>) -> bool {
    forall|i: int| 0 <= i < s.len() ==> is_digit_char(#[trigger] s[i])
}

/// The numeric value of a digit string, most significant digit first.
pub open spec fn digits_val(s: Seq<char>) -> int
    decreases s.len(),
{
    if s.len() == 0 {
        0
    } else {
        digits_val(s.drop_last()) * 10 + digit_val(s.last())
    }
}

/// The digit portion of a decimal string: an optional leading `+` sign is
/// accepted, as `usize::from_str` does.
pub open spec fn usize_digits(s: Seq<char>) -> Seq<char> {
    if s.len() > 0 && s[0] == '+' {
        s.skip(1)
    } else {
        s
    }
}

/// Whether `str::parse::<usize>` succeeds on `s`.
pub open spec fn usize_parsable(s: Seq<char>) -> bool {
    let d = usize_digits(s);
    d.len() > 0 && all_digits(d) && digits_val(d) <= usize::MAX
}

/// The value `str::parse::<usize>` returns on a parsable `s`.
pub open spec fn parsed_usize(s: Seq<char>) -> int {
    digits_val(usize_digits(s))
}

pub proof fn lemma_digits_val_nonneg(s: Seq<char>)
    requires
        all_digits(s),
    ensures
        digits_val(s) >= 0,
    decreases s.len(),
{
    if s.len() > 0 {
        assert(all_digits(s.drop_last()));
        lemma_digits_val_nonneg(s.drop_last());
    }
}

pub proof fn lemma_digits_val_append_ge(s: Seq<char>, t: Seq<char>)
    requires
        digits_val(s) >= 0,
        all_digits(t),
    ensures
        digits_val(s + t) >= digits_val(s),
    decreases t.len(),
{
    if t.len() == 0 {
        assert(s + t =~= s);
    } else {
        assert((s + t).drop_last() =~= s + t.drop_last());
        assert(all_digits(t.drop_last()));
        lemma_digits_val_append_ge(s, t.drop_last());
        assert((s + t).last() == t.last());
        assert(is_digit_char(t[t.len() - 1]));
    }
}

/// The model of `str::parse::<usize>`: `Some` exactly on parsable input.
pub fn parse_usize(s: &str) -> (r: Option<usize>)
    ensures
        match r {
            Some(v) => usize_parsable(s@) && v as int == parsed_usize(s@),
            None => !usize_parsable(s@),
        },
{
    let n = s.unicode_len();
    if n == 0 {
        return None;
    }
    let mut start: usize = 0;
    if s.get_char(0) == '+' {
        start = 1;
    }
    if start == n {
        return None;
    }
    proof {
        assert(usize_digits(s@) =~= s@.subrange(start as int, n as int));
    }
    let mut acc: usize = 0;
    let mut i: usize = start;
    while i < n
        invariant
            start <= i <= n,
            n == s@.len(),
            usize_digits(s@) =~= s@.subrange(start as int, n as int),
            all_digits(s@.subrange(start as int, i as int)),
            acc as int == digits_val(s@.subrange(start as int, i as int)),
        decreases n - i,
    {
        let c = s.get_char(i);
        let u = c as u32;
        if u < 48 || u > 57 {
            assert(!all_digits(usize_digits(s@))) by {
                assert(usize_digits(s@)[i - start] == s@[i as int]);
            }
            return None;
        }
        let dv = (u - 48) as usize;
        let ghost prefix = s@.subrange(start as int, i as int);
        let ghost prefix1 = s@.subrange(start as int, i + 1 as int);
        proof {
            assert(prefix1.drop_last() =~= prefix);
            assert(prefix1.last() == s@[i as int]);
        }
        let wide: u128 = acc as u128 * 10 + dv as u128;
        if wide > usize::MAX as u128 {
            proof {
                assert(digits_val(prefix1) > usize::MAX);
                assert(all_digits(prefix1));
                lemma_digits_val_nonneg(prefix1);
                let rest = s@.subrange(i + 1 as int, n as int);
                assert(usize_digits(s@) =~= prefix1 + rest);
                if all_digits(usize_digits(s@)) {
                    assert(all_digits(rest)) by {
                        assert(forall|j: int|
                            0 <= j < rest.len() ==> rest[j] == usize_digits(s@)[
                                i + 1 - start + j
                            ]);
                    }
                    lemma_digits_val_append_ge(prefix1, rest);
                }
            }
            return None;
        }
        acc = wide as usize;
        i = i + 1;
    }
    proof {
        assert(s@.subrange(start as int, n as int) == usize_digits(s@));
        lemma_digits_val_nonneg(usize_digits(s@));
    }
    Some(acc)
}

} // verus!
