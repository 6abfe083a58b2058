//! Verified string utilities shared by the blocks: equality, prefix
//! stripping, whitespace trimming, splitting and joining on a separator
//! character, and decimal formatting/parsing.
//!
//! Every executable function here is specified against a small spec
//! function over `Seq<char>` views, so that the blocks' contracts can
//! speak about header values, path segments and role lists exactly.

use vstd::prelude::*;

verus! {

/// The views of a vector of strings.
pub open spec fn views_of(ts: Seq<String>) -> Seq<Seq<char>> {
    ts.map_values(|t: String| t@)
}

pub proof fn lemma_views_of_push(ts: Seq<String>, t: String)
    ensures
        views_of(ts.push(t)) == views_of(ts).push(t@),
{
    assert(views_of(ts.push(t)) =~= views_of(ts).push(t@));
}

/// String equality by view.
pub fn str_eq(a: &str, b: &str) -> (r: bool)
    ensures
        r <==> a@ == b@,
{
    let an = a.unicode_len();
    let bn = b.unicode_len();
    if an != bn {
        return false;
    }
    let mut i: usize = 0;
    while i < an
        invariant
            an == a@.len(),
            an == b@.len(),
            i <= an,
            forall|j: int| 0 <= j < i ==> a@[j] == b@[j],
        decreases an - i,
    {
        if a.get_char(i) != b.get_char(i) {
            return false;
        }
        i += 1;
    }
    proof {
        assert(a@ =~= b@);
    }
    true
}

/// Whether a string contains a given character.
pub fn contains_char(s: &str, c: char) -> (r: bool)
    ensures
        r <==> s@.contains(c),
{
    let n = s.unicode_len();
    let mut i: usize = 0;
    while i < n
        invariant
            n == s@.len(),
            i <= n,
            forall|j: int| 0 <= j < i ==> s@[j] != c,
        decreases n - i,
    {
        if s.get_char(i) == c {
            proof {
                assert(s@[i as int] == c);
            }
            return true;
        }
        i += 1;
    }
    false
}

/// Whether `p` is a prefix of `s`.
pub fn str_starts_with(s: &str, p: &str) -> (r: bool)
    ensures
        r <==> p@.is_prefix_of(s@),
{
    let pn = p.unicode_len();
    let sn = s.unicode_len();
    if pn > sn {
        return false;
    }
    let mut i: usize = 0;
    while i < pn
        invariant
            pn == p@.len(),
            sn == s@.len(),
            pn <= sn,
            i <= pn,
            forall|j: int| 0 <= j < i ==> s@[j] == p@[j],
        decreases pn - i,
    {
        if s.get_char(i) != p.get_char(i) {
            proof {
                assert(!(p@ =~= s@.subrange(0, pn as int)));
            }
            return false;
        }
        i += 1;
    }
    proof {
        assert(p@ =~= s@.subrange(0, pn as int));
    }
    true
}

/// The remainder of `s` after a prefix `p`, if `p` is indeed a prefix.
pub fn strip_prefix_str(s: &str, p: &str) -> (r: Option<String>)
    ensures
        match r {
            Some(t) => p@.is_prefix_of(s@) && t@ == s@.skip(p@.len() as int),
            None => !p@.is_prefix_of(s@),
        },
{
    if str_starts_with(s, p) {
        let pn = p.unicode_len();
        let sn = s.unicode_len();
        let rest = s.substring_char(pn, sn);
        proof {
            assert(rest@ =~= s@.skip(p@.len() as int));
        }
        Some(rest.to_owned())
    } else {
        None
    }
}

/// The tokens of `s` split on separator `c`; always at least one token,
/// and `""` splits to one empty token, as Rust's `str::split` does.
pub open spec fn split_spec(s: Seq<char>, c: char) -> Seq<Seq<char>>
    decreases s.len(),
{
    if s.len() == 0 {
        seq![Seq::<char>::empty()]
    } else if s[0] == c {
        seq![Seq::<char>::empty()] + split_spec(s.drop_first(), c)
    } else {
        let r = split_spec(s.drop_first(), c);
        seq![seq![s[0]] + r[0]] + r.drop_first()
    }
}

/// The tokens `ts` joined with separator `c` between neighbours.
pub open spec fn join_spec(ts: Seq<Seq<char>>, c: char) -> Seq<char>
    decreases ts.len(),
{
    if ts.len() == 0 {
        Seq::<char>::empty()
    } else if ts.len() == 1 {
        ts[0]
    } else {
        ts[0] + seq![c] + join_spec(ts.drop_first(), c)
    }
}

pub proof fn lemma_split_len(s: Seq<char>, c: char)
    ensures
        split_spec(s, c).len() >= 1,
    decreases s.len(),
{
    if s.len() > 0 {
        lemma_split_len(s.drop_first(), c);
    }
}

/// No token of a split contains the separator.
pub proof fn lemma_split_parts_free(s: Seq<char>, c: char)
    ensures
        forall|k: int|
            0 <= k < split_spec(s, c).len() ==> !(#[trigger] split_spec(s, c)[k]).contains(c),
    decreases s.len(),
{
    if s.len() == 0 {
        assert forall|k: int| 0 <= k < split_spec(s, c).len() implies !(#[trigger] split_spec(
            s,
            c,
        )[k]).contains(c) by {
            assert(split_spec(s, c)[k] == Seq::<char>::empty());
        }
    } else {
        lemma_split_parts_free(s.drop_first(), c);
        lemma_split_len(s.drop_first(), c);
        let r = split_spec(s.drop_first(), c);
        if s[0] == c {
            assert forall|k: int| 0 <= k < split_spec(s, c).len() implies !(#[trigger] split_spec(
                s,
                c,
            )[k]).contains(c) by {
                if k == 0 {
                    assert(split_spec(s, c)[0] == Seq::<char>::empty());
                } else {
                    assert(split_spec(s, c)[k] == r[k - 1]);
                }
            }
        } else {
            assert forall|k: int| 0 <= k < split_spec(s, c).len() implies !(#[trigger] split_spec(
                s,
                c,
            )[k]).contains(c) by {
                if k == 0 {
                    assert(split_spec(s, c)[0] == seq![s[0]] + r[0]);
                    assert(!r[0].contains(c));
                    assert forall|j: int| 0 <= j < (seq![s[0]] + r[0]).len() implies (seq![s[0]]
                        + r[0])[j] != c by {
                        if j == 0 {
                        } else {
                            assert((seq![s[0]] + r[0])[j] == r[0][j - 1]);
                            assert(r[0].contains(r[0][j - 1]));
                        }
                    }
                } else {
                    assert(split_spec(s, c)[k] == r[k]);
                }
            }
        }
    }
}

/// Splitting at a separator splits around it.
pub proof fn lemma_split_append_sep(a: Seq<char>, b: Seq<char>, c: char)
    ensures
        split_spec(a + seq![c] + b, c) == split_spec(a, c) + split_spec(b, c),
    decreases a.len(),
{
    lemma_split_len(b, c);
    if a.len() == 0 {
        assert(a + seq![c] + b =~= seq![c] + b);
        assert((seq![c] + b)[0] == c);
        assert((seq![c] + b).drop_first() =~= b);
        assert(split_spec(a, c) =~= seq![Seq::<char>::empty()]);
        assert(split_spec(a + seq![c] + b, c) =~= split_spec(a, c) + split_spec(b, c));
    } else {
        lemma_split_append_sep(a.drop_first(), b, c);
        lemma_split_len(a.drop_first(), c);
        let w = a + seq![c] + b;
        assert(w[0] == a[0]);
        assert(w.drop_first() =~= a.drop_first() + seq![c] + b);
        let rw = split_spec(w.drop_first(), c);
        let ra = split_spec(a.drop_first(), c);
        let rb = split_spec(b, c);
        assert(rw == ra + rb);
        if a[0] == c {
            assert(split_spec(w, c) =~= seq![Seq::<char>::empty()] + ra + rb);
            assert(split_spec(a, c) =~= seq![Seq::<char>::empty()] + ra);
            assert(split_spec(w, c) =~= split_spec(a, c) + rb);
        } else {
            assert(rw[0] == ra[0]);
            assert(rw.drop_first() =~= ra.drop_first() + rb);
            assert(split_spec(w, c) =~= seq![seq![a[0]] + ra[0]] + ra.drop_first() + rb);
            assert(split_spec(a, c) =~= seq![seq![a[0]] + ra[0]] + ra.drop_first());
            assert(split_spec(w, c) =~= split_spec(a, c) + rb);
        }
    }
}

/// A separator-free string splits to exactly one token: itself.
pub proof fn lemma_split_free(s: Seq<char>, c: char)
    requires
        !s.contains(c),
    ensures
        split_spec(s, c) == seq![s],
    decreases s.len(),
{
    if s.len() == 0 {
        assert(split_spec(s, c) =~~= seq![s]);
    } else {
        assert(s[0] != c);
        assert(!s.drop_first().contains(c)) by {
            if s.drop_first().contains(c) {
                let j = choose|j: int| 0 <= j < s.drop_first().len() && s.drop_first()[j] == c;
                assert(s[j + 1] == c);
            }
        }
        lemma_split_free(s.drop_first(), c);
        assert(split_spec(s, c) =~~= seq![seq![s[0]] + s.drop_first()]);
        assert(seq![s[0]] + s.drop_first() =~= s);
        assert(split_spec(s, c) =~~= seq![s]);
    }
}

/// Appending one non-separator character extends the last token.
pub proof fn lemma_split_snoc_char(a: Seq<char>, x: char, c: char)
    requires
        x != c,
    ensures
        ({
            let r = split_spec(a, c);
            split_spec(a.push(x), c) == r.update(r.len() - 1, r.last().push(x))
        }),
    decreases a.len(),
{
    lemma_split_len(a, c);
    let r = split_spec(a, c);
    if a.len() == 0 {
        assert(a.push(x) =~= seq![x]);
        assert(a.push(x).drop_first() =~= a);
        assert(split_spec(a.push(x), c) =~~= seq![seq![x]]);
        assert(r.update(r.len() - 1, r.last().push(x)) =~~= seq![seq![x]]) by {
            assert(r.last() =~= Seq::<char>::empty());
            assert(r.last().push(x) =~= seq![x]);
        }
    } else {
        lemma_split_snoc_char(a.drop_first(), x, c);
        lemma_split_len(a.drop_first(), c);
        let ra = split_spec(a.drop_first(), c);
        assert(a.push(x)[0] == a[0]);
        assert(a.push(x).drop_first() =~= a.drop_first().push(x));
        let rp = split_spec(a.drop_first().push(x), c);
        assert(rp == ra.update(ra.len() - 1, ra.last().push(x)));
        if a[0] == c {
            assert(split_spec(a.push(x), c) =~~= seq![Seq::<char>::empty()] + rp);
            assert(r =~= seq![Seq::<char>::empty()] + ra);
            assert(r.last() == ra.last());
            assert(split_spec(a.push(x), c) =~~= r.update(r.len() - 1, r.last().push(x)));
        } else {
            if ra.len() == 1 {
                assert(rp[0] == ra[0].push(x));
                assert(split_spec(a.push(x), c) =~~= seq![seq![a[0]] + ra[0].push(x)]
                    + rp.drop_first());
                assert(r =~= seq![seq![a[0]] + ra[0]] + ra.drop_first());
                assert(r.len() == 1);
                assert(r.last() == seq![a[0]] + ra[0]);
                assert(seq![a[0]] + ra[0].push(x) =~= (seq![a[0]] + ra[0]).push(x));
                assert(rp.drop_first() =~= Seq::<Seq<char>>::empty());
                assert(split_spec(a.push(x), c) =~~= r.update(r.len() - 1, r.last().push(x)));
            } else {
                assert(rp[0] == ra[0]);
                assert(split_spec(a.push(x), c) =~~= seq![seq![a[0]] + ra[0]] + rp.drop_first());
                assert(r =~= seq![seq![a[0]] + ra[0]] + ra.drop_first());
                assert(rp.drop_first() =~= ra.drop_first().update(
                    ra.len() - 2,
                    ra.last().push(x),
                ));
                assert(r.last() == ra.last());
                assert(split_spec(a.push(x), c) =~~= r.update(r.len() - 1, r.last().push(x)));
            }
        }
    }
}

/// Appending the separator appends one fresh empty token.
pub proof fn lemma_split_snoc_sep(a: Seq<char>, c: char)
    ensures
        split_spec(a.push(c), c) == split_spec(a, c).push(Seq::<char>::empty()),
{
    assert(a.push(c) =~= a + seq![c] + Seq::<char>::empty());
    lemma_split_append_sep(a, Seq::<char>::empty(), c);
    assert(split_spec(Seq::<char>::empty(), c) =~~= seq![Seq::<char>::empty()]);
    assert(split_spec(a, c) + seq![Seq::<char>::empty()] =~= split_spec(a, c).push(
        Seq::<char>::empty(),
    ));
}

/// Joining and then splitting on the separator recovers the tokens,
/// provided no token contains the separator.
pub proof fn lemma_split_join(ts: Seq<Seq<char>>, c: char)
    requires
        ts.len() >= 1,
        forall|k: int| 0 <= k < ts.len() ==> !(#[trigger] ts[k]).contains(c),
    ensures
        split_spec(join_spec(ts, c), c) == ts,
    decreases ts.len(),
{
    if ts.len() == 1 {
        lemma_split_free(ts[0], c);
        assert(split_spec(join_spec(ts, c), c) =~~= ts);
    } else {
        lemma_split_join(ts.drop_first(), c);
        lemma_split_append_sep(ts[0], join_spec(ts.drop_first(), c), c);
        lemma_split_free(ts[0], c);
        assert(split_spec(join_spec(ts, c), c) =~~= seq![ts[0]] + ts.drop_first());
        assert(seq![ts[0]] + ts.drop_first() =~= ts);
    }
}

/// Split a string on a separator character, as Rust's `str::split` does.
pub fn split_char(s: &str, c: char) -> (r: Vec<String>)
    ensures
        views_of(r@) == split_spec(s@, c),
        r@.len() >= 1,
{
    let n = s.unicode_len();
    let mut tokens: Vec<String> = Vec::new();
    let mut start: usize = 0;
    let mut i: usize = 0;
    proof {
        assert(s@.take(0) =~= Seq::<char>::empty());
        assert(s@.subrange(0, 0) =~= Seq::<char>::empty());
        assert(split_spec(s@.take(0), c) =~~= views_of(tokens@).push(s@.subrange(0, 0)));
    }
    while i < n
        invariant
            n == s@.len(),
            start <= i <= n,
            split_spec(s@.take(i as int), c) == views_of(tokens@).push(
                s@.subrange(start as int, i as int),
            ),
        decreases n - i,
    {
        let ghost pre = s@.take(i as int);
        let ghost cur = s@.subrange(start as int, i as int);
        proof {
            assert(s@.take(i + 1) =~= pre.push(s@[i as int]));
        }
        if s.get_char(i) == c {
            let tok = s.substring_char(start, i).to_owned();
            proof {
                lemma_split_snoc_sep(pre, c);
                assert(tok@ =~= cur);
                lemma_views_of_push(tokens@, tok);
                assert(split_spec(s@.take(i + 1), c) =~= views_of(tokens@.push(tok)).push(
                    s@.subrange(i + 1, i + 1),
                )) by {
                    assert(s@.subrange(i + 1, i + 1) =~= Seq::<char>::empty());
                    assert(split_spec(pre, c).push(Seq::<char>::empty()) =~= views_of(
                        tokens@,
                    ).push(cur).push(Seq::<char>::empty()));
                }
            }
            tokens.push(tok);
            start = i + 1;
        } else {
            proof {
                lemma_split_snoc_char(pre, s@[i as int], c);
                let r = split_spec(pre, c);
                assert(r == views_of(tokens@).push(cur));
                assert(r.last() == cur);
                assert(r.update(r.len() - 1, cur.push(s@[i as int])) =~= views_of(tokens@).push(
                    s@.subrange(start as int, i + 1),
                )) by {
                    assert(s@.subrange(start as int, i + 1) =~= cur.push(s@[i as int]));
                }
            }
        }
        i += 1;
    }
    let tok = s.substring_char(start, n).to_owned();
    proof {
        assert(s@.take(n as int) =~= s@);
        assert(tok@ =~= s@.subrange(start as int, n as int));
        lemma_views_of_push(tokens@, tok);
    }
    tokens.push(tok);
    proof {
        lemma_split_len(s@, c);
    }
    tokens
}

/// Join tokens with a one-character separator between neighbours.
pub fn join_strings(parts: &Vec<String>, sep: &str) -> (r: String)
    requires
        sep@.len() == 1,
    ensures
        r@ == join_spec(views_of(parts@), sep@[0]),
{
    let ghost c = sep@[0];
    let mut r = String::new();
    let n = parts.len();
    let mut i: usize = 0;
    while i < n
        invariant
            n == parts@.len(),
            i <= n,
            sep@.len() == 1,
            c == sep@[0],
            r@ == join_spec(views_of(parts@).take(i as int), c),
        decreases n - i,
    {
        if i > 0 {
            r.append(sep);
            proof {
                assert(sep@ =~= seq![c]);
            }
        }
        r.append(parts[i].as_str());
        proof {
            let vs = views_of(parts@);
            lemma_join_push(vs.take(i as int), vs[i as int], c);
            assert(vs.take(i + 1) =~= vs.take(i as int).push(vs[i as int]));
        }
        i += 1;
    }
    proof {
        assert(views_of(parts@).take(n as int) =~= views_of(parts@));
    }
    r
}

/// The whitespace characters that trimming removes.
pub open spec fn is_space_char(c: char) -> bool {
    c == ' ' || c == '\t' || c == '\n' || c == '\r'
}

pub open spec fn trim_front_spec(s: Seq<char>) -> Seq<char>
    decreases s.len(),
{
    if s.len() > 0 && is_space_char(s[0]) {
        trim_front_spec(s.drop_first())
    } else {
        s
    }
}

pub open spec fn trim_back_spec(s: Seq<char>) -> Seq<char>
    decreases s.len(),
{
    if s.len() > 0 && is_space_char(s.last()) {
        trim_back_spec(s.drop_last())
    } else {
        s
    }
}

/// `s` with leading and trailing whitespace removed.
pub open spec fn trim_spec(s: Seq<char>) -> Seq<char> {
    trim_back_spec(trim_front_spec(s))
}

proof fn lemma_trim_front_skip(s: Seq<char>, a: int)
    requires
        0 <= a <= s.len(),
        forall|j: int| 0 <= j < a ==> is_space_char(s[j]),
        a == s.len() || !is_space_char(s[a]),
    ensures
        trim_front_spec(s) == s.skip(a),
    decreases a,
{
    if a == 0 {
        assert(s.skip(0) =~= s);
    } else {
        assert(is_space_char(s[0]));
        lemma_trim_front_skip(s.drop_first(), a - 1);
        assert(s.drop_first().skip(a - 1) =~= s.skip(a));
    }
}

proof fn lemma_trim_back_take(s: Seq<char>, b: int)
    requires
        0 <= b <= s.len(),
        forall|j: int| b <= j < s.len() ==> is_space_char(s[j]),
        b == 0 || !is_space_char(s[b - 1]),
    ensures
        trim_back_spec(s) == s.take(b),
    decreases s.len() - b,
{
    if b == s.len() {
        if s.len() == 0 || !is_space_char(s.last()) {
            assert(s.take(b) =~= s);
        } else {
            assert(b == s.len() && s.len() > 0 && is_space_char(s.last()));
            assert(!is_space_char(s[b - 1]));
            assert(false);
        }
    } else {
        assert(is_space_char(s.last()));
        lemma_trim_back_take(s.drop_last(), b);
        assert(s.drop_last().take(b) =~= s.take(b));
    }
}

/// `s` with leading and trailing whitespace (space, tab, newline,
/// carriage return) removed.
pub fn trim_str(s: &str) -> (r: String)
    ensures
        r@ == trim_spec(s@),
{
    let n = s.unicode_len();
    let mut a: usize = 0;
    while a < n && is_space(s.get_char(a))
        invariant
            n == s@.len(),
            a <= n,
            forall|j: int| 0 <= j < a ==> is_space_char(s@[j]),
        decreases n - a,
    {
        a += 1;
    }
    let mut b: usize = n;
    while b > a && is_space(s.get_char(b - 1))
        invariant
            n == s@.len(),
            a <= b <= n,
            forall|j: int| b <= j < n ==> is_space_char(s@[j]),
        decreases b,
    {
        b -= 1;
    }
    let r = s.substring_char(a, b).to_owned();
    proof {
        lemma_trim_front_skip(s@, a as int);
        let t = s@.skip(a as int);
        if b == a {
            lemma_trim_back_take(t, 0);
        } else {
            assert(!is_space_char(s@[b - 1]));
            assert(t[b - a - 1] == s@[b - 1]);
            assert(forall|j: int| b - a <= j < t.len() ==> is_space_char(#[trigger] t[j]))
                by {
                assert forall|j: int| b - a <= j < t.len() implies is_space_char(
                    #[trigger] t[j],
                ) by {
                    assert(t[j] == s@[j + a]);
                }
            }
            lemma_trim_back_take(t, b - a);
        }
        assert(t.take(b - a) =~= s@.subrange(a as int, b as int));
        assert(r@ == trim_spec(s@));
    }
    r
}

/// Whether `c` is one of the whitespace characters trimming removes.
pub fn is_space(c: char) -> (r: bool)
    ensures
        r == is_space_char(c),
{
    c == ' ' || c == '\t' || c == '\n' || c == '\r'
}

/// The character for one decimal digit value.
pub open spec fn digit_char(d: int) -> char {
    if d == 0 {
        '0'
    } else if d == 1 {
        '1'
    } else if d == 2 {
        '2'
    } else if d == 3 {
        '3'
    } else if d == 4 {
        '4'
    } else if d == 5 {
        '5'
    } else if d == 6 {
        '6'
    } else if d == 7 {
        '7'
    } else if d == 8 {
        '8'
    } else {
        '9'
    }
}

/// The decimal digit string of a non-negative integer, no leading zeros
/// except for the number 0 itself.
pub open spec fn dec_str(n: int) -> Seq<char>
    decreases n,
{
    if n < 10 {
        seq![digit_char(n)]
    } else {
        dec_str(n / 10).push(digit_char(n % 10))
    }
}

fn digit_string(d: u64) -> (r: String)
    requires
        d < 10,
    ensures
        r@ == seq![digit_char(d as int)],
{
    let r = if d == 0 {
        String::from_str("0")
    } else if d == 1 {
        String::from_str("1")
    } else if d == 2 {
        String::from_str("2")
    } else if d == 3 {
        String::from_str("3")
    } else if d == 4 {
        String::from_str("4")
    } else if d == 5 {
        String::from_str("5")
    } else if d == 6 {
        String::from_str("6")
    } else if d == 7 {
        String::from_str("7")
    } else if d == 8 {
        String::from_str("8")
    } else {
        String::from_str("9")
    };
    proof {
        reveal_strlit("0");
        reveal_strlit("1");
        reveal_strlit("2");
        reveal_strlit("3");
        reveal_strlit("4");
        reveal_strlit("5");
        reveal_strlit("6");
        reveal_strlit("7");
        reveal_strlit("8");
        reveal_strlit("9");
        assert(r@ =~= seq![digit_char(d as int)]);
    }
    r
}

/// The decimal representation of `n`.
pub fn u64_to_string(n: u64) -> (r: String)
    ensures
        r@ == dec_str(n as int),
    decreases n,
{
    if n < 10 {
        digit_string(n)
    } else {
        let mut r = u64_to_string(n / 10);
        let d = digit_string(n % 10);
        r.append(d.as_str());
        proof {
            assert(dec_str((n / 10) as int) + seq![digit_char((n % 10) as int)] =~= dec_str(
                (n / 10) as int,
            ).push(digit_char((n % 10) as int)));
        }
        r
    }
}

/// Whether `c` is a decimal digit.
pub open spec fn is_digit(c: char) -> bool {
    '0' <= c && c <= '9'
}

/// The value of a decimal digit character.
pub open spec fn digit_val(c: char) -> int {
    c as int - '0' as int
}

/// The value of a string of decimal digits.
pub open spec fn dec_val(s: Seq<char>) -> int
    decreases s.len(),
{
    if s.len() == 0 {
        0
    } else {
        dec_val(s.drop_last()) * 10 + digit_val(s.last())
    }
}

pub proof fn lemma_dec_val_nonneg(s: Seq<char>)
    requires
        forall|j: int| 0 <= j < s.len() ==> is_digit(#[trigger] s[j]),
    ensures
        dec_val(s) >= 0,
    decreases s.len(),
{
    if s.len() > 0 {
        lemma_dec_val_nonneg(s.drop_last());
    }
}

proof fn lemma_dec_val_prefix_le(s: Seq<char>, p: int)
    requires
        0 <= p <= s.len(),
        forall|j: int| 0 <= j < s.len() ==> is_digit(#[trigger] s[j]),
    ensures
        dec_val(s.take(p)) <= dec_val(s),
    decreases s.len() - p,
{
    if p == s.len() {
        assert(s.take(p) =~= s);
    } else {
        lemma_dec_val_prefix_le(s, p + 1);
        let t = s.take(p + 1);
        assert(t.drop_last() =~= s.take(p));
        assert(forall|j: int| 0 <= j < s.take(p).len() ==> is_digit(#[trigger] s.take(p)[j]));
        lemma_dec_val_nonneg(s.take(p));
        assert(is_digit(t.last()));
        assert(dec_val(t) == dec_val(s.take(p)) * 10 + digit_val(t.last()));
        assert(dec_val(s.take(p)) * 10 >= dec_val(s.take(p))) by (nonlinear_arith)
            requires
                dec_val(s.take(p)) >= 0,
        ;
    }
}

/// The digit part of an unsigned decimal literal: an optional leading
/// `+` sign is skipped.
pub open spec fn unsigned_digits(s: Seq<char>) -> Seq<char> {
    if s.len() > 0 && s[0] == '+' {
        s.drop_first()
    } else {
        s
    }
}

/// Whether `s` is a decimal literal that `u32::from_str` accepts with a
/// value that fits in `u32`.
pub open spec fn u32_parsable(s: Seq<char>) -> bool {
    let d = unsigned_digits(s);
    d.len() > 0 && (forall|j: int| 0 <= j < d.len() ==> is_digit(#[trigger] d[j])) && dec_val(d)
        <= u32::MAX
}

/// Parse a `u32` from its decimal representation, as `str::parse` does
/// for `u32`: an optional `+` sign, then one or more digits, value in
/// range.
pub fn parse_u32(s: &str) -> (r: Option<u32>)
    ensures
        match r {
            Some(v) => u32_parsable(s@) && v as int == dec_val(unsigned_digits(s@)),
            None => !u32_parsable(s@),
        },
{
    let n = s.unicode_len();
    let st: usize = if n > 0 && s.get_char(0) == '+' {
        1
    } else {
        0
    };
    let ghost d = unsigned_digits(s@);
    proof {
        assert(d =~= s@.skip(st as int));
    }
    if st == n {
        return None;
    }
    let mut acc: u64 = 0;
    let mut i: usize = st;
    while i < n
        invariant
            n == s@.len(),
            st <= i <= n,
            d == unsigned_digits(s@),
            d == s@.skip(st as int),
            acc <= u32::MAX,
            forall|j: int| st <= j < i ==> is_digit(#[trigger] s@[j]),
            acc as int == dec_val(d.take(i - st)),
        decreases n - i,
    {
        let c = s.get_char(i);
        if !(c >= '0' && c <= '9') {
            proof {
                assert(!u32_parsable(s@)) by {
                    assert(s@.skip(st as int)[i - st] == s@[i as int]);
                    assert(unsigned_digits(s@)[i - st] == s@[i as int]);
                    assert(!is_digit(unsigned_digits(s@)[i - st]));
                }
            }
            return None;
        }
        let dv: u64 = (c as u32 as u64) - ('0' as u32 as u64);
        proof {
            assert(dv as int == digit_val(s@[i as int]));
            assert(dv < 10);
        }
        let next: u64 = acc * 10 + dv;
        proof {
            assert(d.take(i - st + 1).drop_last() =~= d.take(i - st));
            assert(d.take(i - st + 1).last() == s@[i as int]);
        }
        if next > 0xffff_ffff {
            proof {
                if u32_parsable(s@) {
                    lemma_dec_val_prefix_le(unsigned_digits(s@), i - st + 1);
                    assert(dec_val(d.take(i - st + 1)) == next as int);
                    assert(false);
                }
            }
            return None;
        }
        acc = next;
        i += 1;
    }
    proof {
        assert(d.take(n - st) =~= d);
        assert(u32_parsable(s@)) by {
            assert forall|j: int|
                0 <= j < unsigned_digits(s@).len() implies is_digit(
                #[trigger] unsigned_digits(s@)[j],
            ) by {
                assert(s@.skip(st as int)[j] == s@[j + st]);
                assert(unsigned_digits(s@)[j] == s@[j + st]);
            }
            assert(dec_val(unsigned_digits(s@)) == acc as int);
        }
    }
    Some(acc as u32)
}

/// Whether `s` is a decimal literal that `u64::from_str` accepts with a
/// value that fits in `u64`.
pub open spec fn u64_parsable(s: Seq<char>) -> bool {
    let d = unsigned_digits(s);
    d.len() > 0 && (forall|j: int| 0 <= j < d.len() ==> is_digit(#[trigger] d[j])) && dec_val(d)
        <= u64::MAX
}

/// Parse a `u64` from its decimal representation, as `str::parse` does
/// for `u64`.
pub fn parse_u64(s: &str) -> (r: Option<u64>)
    ensures
        match r {
            Some(v) => u64_parsable(s@) && v as int == dec_val(unsigned_digits(s@)),
            None => !u64_parsable(s@),
        },
{
    let n = s.unicode_len();
    let st: usize = if n > 0 && s.get_char(0) == '+' {
        1
    } else {
        0
    };
    let ghost d = unsigned_digits(s@);
    proof {
        assert(d =~= s@.skip(st as int));
    }
    if st == n {
        return None;
    }
    let mut acc: u128 = 0;
    let mut i: usize = st;
    while i < n
        invariant
            n == s@.len(),
            st <= i <= n,
            d == unsigned_digits(s@),
            d == s@.skip(st as int),
            acc <= u64::MAX,
            forall|j: int| st <= j < i ==> is_digit(#[trigger] s@[j]),
            acc as int == dec_val(d.take(i - st)),
        decreases n - i,
    {
        let c = s.get_char(i);
        if !(c >= '0' && c <= '9') {
            proof {
                assert(!u64_parsable(s@)) by {
                    assert(s@.skip(st as int)[i - st] == s@[i as int]);
                    assert(unsigned_digits(s@)[i - st] == s@[i as int]);
                    assert(!is_digit(unsigned_digits(s@)[i - st]));
                }
            }
            return None;
        }
        let dv: u128 = (c as u32 as u128) - ('0' as u32 as u128);
        proof {
            assert(dv as int == digit_val(s@[i as int]));
            assert(dv < 10);
        }
        let next: u128 = acc * 10 + dv;
        proof {
            assert(d.take(i - st + 1).drop_last() =~= d.take(i - st));
            assert(d.take(i - st + 1).last() == s@[i as int]);
        }
        if next > 0xffff_ffff_ffff_ffff {
            proof {
                if u64_parsable(s@) {
                    lemma_dec_val_prefix_le(unsigned_digits(s@), i - st + 1);
                    assert(dec_val(d.take(i - st + 1)) == next as int);
                    assert(false);
                }
            }
            return None;
        }
        acc = next;
        i += 1;
    }
    proof {
        assert(d.take(n - st) =~= d);
        assert(u64_parsable(s@)) by {
            assert forall|j: int|
                0 <= j < unsigned_digits(s@).len() implies is_digit(
                #[trigger] unsigned_digits(s@)[j],
            ) by {
                assert(s@.skip(st as int)[j] == s@[j + st]);
                assert(unsigned_digits(s@)[j] == s@[j + st]);
            }
            assert(dec_val(unsigned_digits(s@)) == acc as int);
        }
    }
    Some(acc as u64)
}

/// The views of a vector of string pairs.
pub open spec fn pair_views(ps: Seq<(String, String)>) -> Seq<(Seq<char>, Seq<char>)> {
    ps.map_values(|p: (String, String)| (p.0@, p.1@))
}

/// Parse a `bool` as `str::parse` does: exactly `"true"` or `"false"`.
pub fn parse_bool(s: &str) -> (r: Option<bool>)
    ensures
        match r {
            Some(v) => (v <==> s@ == "true"@) && (!v <==> s@ == "false"@),
            None => s@ != "true"@ && s@ != "false"@,
        },
{
    if str_eq(s, "true") {
        proof {
            reveal_strlit("true");
            reveal_strlit("false");
            assert("true"@.len() == 4);
            assert("false"@.len() == 5);
        }
        Some(true)
    } else if str_eq(s, "false") {
        proof {
            reveal_strlit("true");
            reveal_strlit("false");
        }
        Some(false)
    } else {
        None
    }
}

/// ASCII lower-casing of one character; other characters are unchanged.
pub open spec fn lower_char(c: char) -> char {
    if 'A' <= c && c <= 'Z' {
        ((c as u8) + 0x20) as char
    } else {
        c
    }
}

/// The character-wise ASCII lower-casing of a string.
pub open spec fn lower_seq(s: Seq<char>) -> Seq<char> {
    s.map_values(|c: char| lower_char(c))
}

/// ASCII lower-casing of one character.
pub fn to_lower_char(c: char) -> (r: char)
    ensures
        r == lower_char(c),
{
    if c >= 'A' && c <= 'Z' {
        let u = c as u8;
        (u + 0x20) as char
    } else {
        c
    }
}

/// Whether `s`, lower-cased character-wise, equals `t` exactly.
pub fn str_eq_lower(s: &str, t: &str) -> (r: bool)
    ensures
        r <==> lower_seq(s@) == t@,
{
    let sn = s.unicode_len();
    let tn = t.unicode_len();
    if sn != tn {
        proof {
            assert(lower_seq(s@).len() == s@.len());
        }
        return false;
    }
    let mut i: usize = 0;
    while i < sn
        invariant
            sn == s@.len(),
            sn == t@.len(),
            i <= sn,
            forall|j: int| 0 <= j < i ==> lower_char(s@[j]) == t@[j],
        decreases sn - i,
    {
        if to_lower_char(s.get_char(i)) != t.get_char(i) {
            proof {
                assert(lower_seq(s@)[i as int] == lower_char(s@[i as int]));
            }
            return false;
        }
        i += 1;
    }
    proof {
        assert(lower_seq(s@) =~= t@);
    }
    true
}

/// Joining one more token appends a separator and the token.
pub proof fn lemma_join_push(ts: Seq<Seq<char>>, t: Seq<char>, c: char)
    ensures
        join_spec(ts.push(t), c) == if ts.len() == 0 {
            t
        } else {
            join_spec(ts, c) + seq![c] + t
        },
    decreases ts.len(),
{
    if ts.len() == 0 {
        assert(ts.push(t).len() == 1);
        assert(ts.push(t)[0] == t);
    } else if ts.len() == 1 {
        assert(ts.push(t)[0] == ts[0]);
        assert(ts.push(t).drop_first() =~= seq![t]);
        assert(join_spec(seq![t], c) == t);
        assert(join_spec(ts, c) == ts[0]);
    } else {
        lemma_join_push(ts.drop_first(), t, c);
        assert(ts.push(t)[0] == ts[0]);
        assert(ts.push(t).drop_first() =~= ts.drop_first().push(t));
        assert(join_spec(ts.push(t), c) == ts[0] + seq![c] + (join_spec(ts.drop_first(), c)
            + seq![c] + t));
        assert(ts[0] + seq![c] + (join_spec(ts.drop_first(), c) + seq![c] + t) =~= (ts[0] + seq![c]
            + join_spec(ts.drop_first(), c)) + seq![c] + t);
    }
}

} // verus!

