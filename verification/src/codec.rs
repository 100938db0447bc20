//! The path codec: a reversible escape-mangling of module paths.
//!
//! A module path plus an item name is flattened to a single identifier-safe
//! string: the origin becomes a leading mark (`package` or `self`), components
//! are joined with `_`, and a component containing underscores is prefixed
//! with `_` and its underscore count so the joining stays unambiguous.
//! [`mangle`] is proved to match the scheme exactly and [`unmangle`] is proved
//! to be its exact inverse: it accepts precisely the strings [`mangle`]
//! produces and recovers the original path and name from them.

use vstd::prelude::*;

use crate::chars::{
    check_digit_char, check_wf_word, chars_eq, chars_to_string, is_digit_char, str_to_chars,
    sub_chars, wf_word,
};
use crate::mod_path::{wf_comps, wf_module_path, ModulePath, PathOrigin};

verus! {

/// The number of underscores in a sequence of characters.
pub open spec fn uscores(s: Seq<char>) -> nat
    decreases s.len(),
{
    if s.len() == 0 {
        0
    } else {
        (if s[0] == '_' {
            1nat
        } else {
            0nat
        }) + uscores(s.drop_first())
    }
}

/// The decimal digit character for `n` (0 to 9).
pub open spec fn digit_char_of(n: int) -> char {
    if n == 0 {
        '0'
    } else if n == 1 {
        '1'
    } else if n == 2 {
        '2'
    } else if n == 3 {
        '3'
    } else if n == 4 {
        '4'
    } else if n == 5 {
        '5'
    } else if n == 6 {
        '6'
    } else if n == 7 {
        '7'
    } else if n == 8 {
        '8'
    } else {
        '9'
    }
}

/// The value of a decimal digit character.
pub open spec fn digit_val(c: char) -> int {
    if c == '0' {
        0
    } else if c == '1' {
        1
    } else if c == '2' {
        2
    } else if c == '3' {
        3
    } else if c == '4' {
        4
    } else if c == '5' {
        5
    } else if c == '6' {
        6
    } else if c == '7' {
        7
    } else if c == '8' {
        8
    } else {
        9
    }
}

/// Every character is a decimal digit.
pub open spec fn all_digits(s: Seq<char>) -> bool {
    forall|i: int| 0 <= i < s.len() ==> is_digit_char(#[trigger] s[i])
}

/// The decimal representation of `n`, most significant digit first.
pub open spec fn dec_rep(n: nat) -> Seq<char>
    decreases n,
{
    if n < 10 {
        seq![digit_char_of(n as int)]
    } else {
        dec_rep(n / 10) + seq![digit_char_of((n % 10) as int)]
    }
}

/// The value of a string of decimal digits.
pub open spec fn dec_val(s: Seq<char>) -> nat
    decreases s.len(),
{
    if s.len() == 0 {
        0
    } else {
        (dec_val(s.drop_last()) * 10 + (if is_digit_char(s.last()) {
            digit_val(s.last())
        } else {
            0
        })) as nat
    }
}

/// The escaped form of a word: unchanged if it has no underscores, otherwise
/// prefixed with `_` and the underscore count.
pub open spec fn esc(w: Seq<char>) -> Seq<char> {
    if uscores(w) == 0 {
        w
    } else {
        seq!['_'] + dec_rep(uscores(w)) + w
    }
}

/// The leading mark of an absolute path.
pub open spec fn package_mark() -> Seq<char> {
    seq!['p', 'a', 'c', 'k', 'a', 'g', 'e']
}

/// The leading mark of a package-relative path.
pub open spec fn self_mark() -> Seq<char> {
    seq!['s', 'e', 'l', 'f']
}

/// The leading mark of an origin.
pub open spec fn origin_mark(o: PathOrigin) -> Seq<char> {
    match o {
        PathOrigin::Absolute => package_mark(),
        PathOrigin::PackageRelative => self_mark(),
    }
}

/// The escaped components joined with `_`.
pub open spec fn joined_esc(comps: Seq<Seq<char>>) -> Seq<char>
    decreases comps.len(),
{
    if comps.len() == 0 {
        Seq::empty()
    } else if comps.len() == 1 {
        esc(comps[0])
    } else {
        esc(comps[0]) + seq!['_'] + joined_esc(comps.drop_first())
    }
}

/// Everything after the origin mark and its separator.
pub open spec fn mangle_body(comps: Seq<Seq<char>>, item: Seq<char>) -> Seq<char> {
    if comps.len() == 0 {
        seq!['_'] + esc(item)
    } else {
        joined_esc(comps) + seq!['_'] + esc(item)
    }
}

/// The mangled identifier for a path origin, its components and an item name.
pub open spec fn mangle_spec(o: PathOrigin, comps: Seq<Seq<char>>, item: Seq<char>) -> Seq<char> {
    origin_mark(o) + seq!['_'] + mangle_body(comps, item)
}

/// The character sequences of a list of character vectors.
pub open spec fn charss_view(v: Seq<Vec<char>>) -> Seq<Seq<char>> {
    v.map(|i: int, w: Vec<char>| w@)
}

proof fn lemma_uscores_push(s: Seq<char>, c: char)
    ensures
        uscores(s.push(c)) == uscores(s) + (if c == '_' {
            1nat
        } else {
            0nat
        }),
    decreases s.len(),
{
    let t = s.push(c);
    assert(t.len() == s.len() + 1);
    assert(uscores(t) == (if t[0] == '_' {
        1nat
    } else {
        0nat
    }) + uscores(t.drop_first()));
    if s.len() == 0 {
        assert(t[0] == c);
        assert(t.drop_first() =~= Seq::<char>::empty());
        assert(uscores(t.drop_first()) == 0);
        assert(uscores(s) == 0);
    } else {
        assert(t[0] == s[0]);
        assert(t.drop_first() =~= s.drop_first().push(c));
        lemma_uscores_push(s.drop_first(), c);
        assert(uscores(s) == (if s[0] == '_' {
            1nat
        } else {
            0nat
        }) + uscores(s.drop_first()));
    }
}

proof fn lemma_joined_esc_push(comps: Seq<Seq<char>>, x: Seq<char>)
    requires
        comps.len() >= 1,
    ensures
        joined_esc(comps.push(x)) == joined_esc(comps) + seq!['_'] + esc(x),
    decreases comps.len(),
{
    if comps.len() == 1 {
        assert(comps.push(x).drop_first() =~= seq![x]);
        assert(joined_esc(seq![x]) == esc(x));
    } else {
        assert(comps.push(x).drop_first() =~= comps.drop_first().push(x));
        lemma_joined_esc_push(comps.drop_first(), x);
    }
}

/// The number of underscores in `w`.
fn count_uscores(w: &Vec<char>) -> (cnt: usize)
    ensures
        cnt == uscores(w@),
{
    let mut cnt: usize = 0;
    let mut i: usize = 0;
    while i < w.len()
        invariant
            0 <= i <= w@.len(),
            cnt <= i,
            cnt == uscores(w@.take(i as int)),
        decreases w@.len() - i,
    {
        proof {
            assert(w@.take(i + 1 as int) =~= w@.take(i as int).push(w@[i as int]));
            lemma_uscores_push(w@.take(i as int), w@[i as int]);
        }
        if w[i] == '_' {
            cnt = cnt + 1;
        }
        i = i + 1;
    }
    proof {
        assert(w@.take(w@.len() as int) =~= w@);
    }
    cnt
}

/// The decimal digit character for `d`.
fn digit_char_exec(d: usize) -> (c: char)
    requires
        d < 10,
    ensures
        c == digit_char_of(d as int),
{
    if d == 0 {
        '0'
    } else if d == 1 {
        '1'
    } else if d == 2 {
        '2'
    } else if d == 3 {
        '3'
    } else if d == 4 {
        '4'
    } else if d == 5 {
        '5'
    } else if d == 6 {
        '6'
    } else if d == 7 {
        '7'
    } else if d == 8 {
        '8'
    } else {
        '9'
    }
}

/// Appends the decimal representation of `n` to `out`.
fn push_dec(out: &mut Vec<char>, n: usize)
    ensures
        final(out)@ == old(out)@ + dec_rep(n as nat),
    decreases n,
{
    if n < 10 {
        out.push(digit_char_exec(n));
        proof {
            assert(out@ =~= old(out)@ + dec_rep(n as nat));
        }
    } else {
        push_dec(out, n / 10);
        out.push(digit_char_exec(n % 10));
        proof {
            assert(out@ =~= old(out)@ + dec_rep(n as nat));
        }
    }
}

/// Appends the escaped form of `w` to `out`.
fn esc_push(out: &mut Vec<char>, w: &Vec<char>)
    ensures
        final(out)@ == old(out)@ + esc(w@),
{
    let u = count_uscores(w);
    if u > 0 {
        out.push('_');
        push_dec(out, u);
    }
    let mut i: usize = 0;
    while i < w.len()
        invariant
            0 <= i <= w@.len(),
            u == uscores(w@),
            out@ == old(out)@ + (if u == 0 {
                Seq::<char>::empty()
            } else {
                seq!['_'] + dec_rep(u as nat)
            }) + w@.take(i as int),
        decreases w@.len() - i,
    {
        out.push(w[i]);
        proof {
            assert(w@.take(i + 1 as int) =~= w@.take(i as int).push(w@[i as int]));
        }
        i = i + 1;
    }
    proof {
        assert(w@.take(w@.len() as int) =~= w@);
        assert(out@ =~= old(out)@ + esc(w@));
    }
}

/// The mangled identifier, over character vectors.
pub fn mangle_core(origin: PathOrigin, comps: &Vec<Vec<char>>, item: &Vec<char>) -> (r: Vec<char>)
    ensures
        r@ == mangle_spec(origin, charss_view(comps@), item@),
{
    let mut out: Vec<char> = Vec::new();
    match origin {
        PathOrigin::Absolute => {
            out.push('p');
            out.push('a');
            out.push('c');
            out.push('k');
            out.push('a');
            out.push('g');
            out.push('e');
            proof {
                assert(out@ =~= origin_mark(origin));
            }
        },
        PathOrigin::PackageRelative => {
            out.push('s');
            out.push('e');
            out.push('l');
            out.push('f');
            proof {
                assert(out@ =~= origin_mark(origin));
            }
        },
    }
    out.push('_');
    proof {
        assert(out@ =~= origin_mark(origin) + seq!['_']);
    }
    let ghost dv = charss_view(comps@);
    if comps.len() == 0 {
    } else {
        esc_push(&mut out, &comps[0]);
        proof {
            assert(dv.take(1) =~= seq![dv[0]]);
            assert(out@ =~= origin_mark(origin) + seq!['_'] + joined_esc(dv.take(1)));
        }
        let mut i: usize = 1;
        while i < comps.len()
            invariant
                1 <= i <= comps@.len(),
                dv == charss_view(comps@),
                out@ == origin_mark(origin) + seq!['_'] + joined_esc(dv.take(i as int)),
            decreases comps@.len() - i,
        {
            out.push('_');
            esc_push(&mut out, &comps[i]);
            proof {
                assert(dv.take(i + 1 as int) =~= dv.take(i as int).push(dv[i as int]));
                lemma_joined_esc_push(dv.take(i as int), dv[i as int]);
                assert(out@ =~= origin_mark(origin) + seq!['_'] + joined_esc(
                    dv.take(i + 1 as int),
                ));
            }
            i = i + 1;
        }
        proof {
            assert(dv.take(dv.len() as int) =~= dv);
        }
    }
    proof {
        assert(out@ =~= origin_mark(origin) + seq!['_'] + joined_esc(dv));
    }
    out.push('_');
    esc_push(&mut out, item);
    proof {
        assert(out@ =~= mangle_spec(origin, dv, item@));
    }
    out
}

/// The flat, collision-free identifier for an item in a module.
///
/// The result is a pure function of the path and the name: two independent
/// processes mangle the same logical shader to the same identifier.
pub fn mangle(path: &ModulePath, item: &str) -> (r: String)
    requires
        wf_module_path(path),
        wf_word(item@),
    ensures
        r@ == mangle_spec(path.origin, path.comps(), item@),
{
    let mut comps: Vec<Vec<char>> = Vec::new();
    let mut i: usize = 0;
    while i < path.components.len()
        invariant
            0 <= i <= path.components@.len(),
            comps@.len() == i,
            forall|k: int| 0 <= k < i ==> #[trigger] comps@[k]@ == path.components@[k]@,
        decreases path.components@.len() - i,
    {
        comps.push(str_to_chars(path.components[i].as_str()));
        i = i + 1;
    }
    let item_chars = str_to_chars(item);
    proof {
        assert(charss_view(comps@) =~= path.comps());
    }
    let out = mangle_core(path.origin, &comps, &item_chars);
    chars_to_string(&out)
}

/// The pieces of `s` between its underscores (splitting on every `_`).
pub open spec fn split_us(s: Seq<char>) -> Seq<Seq<char>>
    decreases s.len(),
{
    if s.len() == 0 {
        seq![Seq::<char>::empty()]
    } else if s[0] == '_' {
        seq![Seq::<char>::empty()] + split_us(s.drop_first())
    } else {
        let r = split_us(s.drop_first());
        seq![seq![s[0]] + r[0]] + r.drop_first()
    }
}

/// The pieces joined back with `_` between them.
pub open spec fn join_us(ts: Seq<Seq<char>>) -> Seq<char>
    decreases ts.len(),
{
    if ts.len() == 0 {
        Seq::empty()
    } else if ts.len() == 1 {
        ts[0]
    } else {
        ts[0] + seq!['_'] + join_us(ts.drop_first())
    }
}

/// The number of leading decimal digits.
pub open spec fn dpl(t: Seq<char>) -> nat
    decreases t.len(),
{
    if t.len() == 0 {
        0
    } else if is_digit_char(t[0]) {
        1 + dpl(t.drop_first())
    } else {
        0
    }
}

proof fn lemma_split_len(s: Seq<char>)
    ensures
        split_us(s).len() == uscores(s) + 1,
    decreases s.len(),
{
    if s.len() == 0 {
    } else {
        lemma_split_len(s.drop_first());
    }
}

proof fn lemma_split_no_us(s: Seq<char>)
    requires
        uscores(s) == 0,
    ensures
        split_us(s) =~~= seq![s],
    decreases s.len(),
{
    if s.len() == 0 {
        assert(split_us(s) =~~= seq![s]);
    } else {
        assert(s[0] != '_');
        lemma_split_no_us(s.drop_first());
        assert(seq![s[0]] + s.drop_first() =~= s);
        assert(split_us(s) =~~= seq![s]);
    }
}

proof fn lemma_join_split(s: Seq<char>)
    ensures
        join_us(split_us(s)) =~= s,
    decreases s.len(),
{
    lemma_split_len(s);
    if s.len() == 0 {
    } else if s[0] == '_' {
        lemma_join_split(s.drop_first());
        lemma_split_len(s.drop_first());
        let r = split_us(s.drop_first());
        assert(split_us(s) == seq![Seq::<char>::empty()] + r);
        assert((seq![Seq::<char>::empty()] + r).drop_first() =~= r);
        assert(join_us(split_us(s)) =~= Seq::<char>::empty() + seq!['_'] + join_us(r));
    } else {
        lemma_join_split(s.drop_first());
        lemma_split_len(s.drop_first());
        let r = split_us(s.drop_first());
        let t = seq![seq![s[0]] + r[0]] + r.drop_first();
        assert(split_us(s) == t);
        if r.len() == 1 {
            assert(t.len() == 1);
            assert(join_us(t) == seq![s[0]] + r[0]);
            assert(join_us(r) == r[0]);
            assert(seq![s[0]] + s.drop_first() =~= s);
            assert(join_us(t) =~= s);
        } else {
            assert(t.len() >= 2);
            assert(t[0] == seq![s[0]] + r[0]);
            assert(t.drop_first() =~= r.drop_first());
            assert(join_us(t) == seq![s[0]] + r[0] + seq!['_'] + join_us(r.drop_first()));
            assert(join_us(r) == r[0] + seq!['_'] + join_us(r.drop_first()));
            assert(join_us(split_us(s.drop_first())) =~= s.drop_first());
            assert(seq![s[0]] + s.drop_first() =~= s);
            assert(join_us(t) =~= s);
        }
    }
}

proof fn lemma_split_sep(a: Seq<char>, b: Seq<char>)
    ensures
        split_us(a + seq!['_'] + b) =~~= split_us(a) + split_us(b),
    decreases a.len(),
{
    let s = a + seq!['_'] + b;
    if a.len() == 0 {
        assert(s[0] == '_');
        assert(s.drop_first() =~= b);
        assert(split_us(s) =~~= seq![Seq::<char>::empty()] + split_us(b));
        assert(split_us(a) =~~= seq![Seq::<char>::empty()]);
    } else {
        assert(s.len() > 0);
        assert(s[0] == a[0]);
        assert(s.drop_first() =~= a.drop_first() + seq!['_'] + b);
        lemma_split_sep(a.drop_first(), b);
        lemma_split_len(a.drop_first());
        lemma_split_len(b);
        let r = split_us(s.drop_first());
        if a[0] == '_' {
            assert(split_us(s) =~~= seq![Seq::<char>::empty()] + r);
            assert(split_us(a) =~~= seq![Seq::<char>::empty()] + split_us(a.drop_first()));
            assert(split_us(s) =~~= split_us(a) + split_us(b));
        } else {
            assert(r =~~= split_us(a.drop_first()) + split_us(b));
            assert(r[0] == split_us(a.drop_first())[0]);
            let ra = split_us(a.drop_first());
            assert(r.drop_first() =~~= ra.drop_first() + split_us(b));
            assert(split_us(s) =~~= seq![seq![a[0]] + r[0]] + r.drop_first());
            assert(split_us(a) =~~= seq![seq![a[0]] + ra[0]] + ra.drop_first());
            assert(split_us(s) =~~= split_us(a) + split_us(b));
        }
    }
}

proof fn lemma_split_prefix(a: Seq<char>, b: Seq<char>)
    requires
        uscores(a) == 0,
    ensures
        split_us(a + b) =~~= seq![a + split_us(b)[0]] + split_us(b).drop_first(),
    decreases a.len(),
{
    lemma_split_len(b);
    if a.len() == 0 {
        assert(a + b =~= b);
        assert(split_us(b) =~~= seq![split_us(b)[0]] + split_us(b).drop_first());
        assert(a + split_us(b)[0] =~= split_us(b)[0]);
    } else {
        assert(a[0] != '_');
        let s = a + b;
        assert(s[0] == a[0]);
        assert(s.drop_first() =~= a.drop_first() + b);
        lemma_split_prefix(a.drop_first(), b);
        let r = split_us(s.drop_first());
        assert(r[0] == a.drop_first() + split_us(b)[0]);
        assert(r.drop_first() =~~= split_us(b).drop_first());
        assert(seq![s[0]] + r[0] =~= a + split_us(b)[0]);
        assert(split_us(s) =~~= seq![seq![s[0]] + r[0]] + r.drop_first());
    }
}

proof fn lemma_no_us_of_digits(s: Seq<char>)
    requires
        all_digits(s),
    ensures
        uscores(s) == 0,
    decreases s.len(),
{
    if s.len() > 0 {
        assert(is_digit_char(s[0]));
        assert(s[0] != '_');
        assert(all_digits(s.drop_first())) by {
            assert(forall|i: int|
                0 <= i < s.drop_first().len() ==> #[trigger] s.drop_first()[i] == s[i + 1]);
        }
        lemma_no_us_of_digits(s.drop_first());
    }
}

proof fn lemma_dec_val_rep(n: nat)
    ensures
        all_digits(dec_rep(n)),
        dec_rep(n).len() >= 1,
        dec_val(dec_rep(n)) == n,
    decreases n,
{
    if n < 10 {
        let s = seq![digit_char_of(n as int)];
        assert(s.drop_last() =~= Seq::<char>::empty());
        assert(s.last() == digit_char_of(n as int));
        assert(is_digit_char(digit_char_of(n as int)));
        assert(digit_val(digit_char_of(n as int)) == n);
        assert(dec_val(Seq::<char>::empty()) == 0);
        assert(dec_val(s) == n);
        assert(all_digits(s));
    } else {
        lemma_dec_val_rep(n / 10);
        let a = dec_rep(n / 10);
        let c = digit_char_of((n % 10) as int);
        let s = a + seq![c];
        assert(s.drop_last() =~= a);
        assert(s.last() == c);
        assert(is_digit_char(c));
        assert(digit_val(c) == n % 10);
        assert(dec_val(s) == dec_val(a) * 10 + n % 10);
        assert((n / 10) * 10 + n % 10 == n);
        assert(all_digits(s)) by {
            assert(forall|i: int| 0 <= i < a.len() ==> s[i] == a[i]);
        }
    }
}

proof fn lemma_dpl_append(a: Seq<char>, b: Seq<char>)
    requires
        all_digits(a),
        b.len() == 0 || !is_digit_char(b[0]),
    ensures
        dpl(a + b) == a.len(),
    decreases a.len(),
{
    let s = a + b;
    if a.len() == 0 {
        assert(s =~= b);
    } else {
        assert(is_digit_char(s[0]));
        assert(s.drop_first() =~= a.drop_first() + b);
        assert(all_digits(a.drop_first())) by {
            assert(forall|i: int|
                0 <= i < a.drop_first().len() ==> #[trigger] a.drop_first()[i] == a[i + 1]);
        }
        lemma_dpl_append(a.drop_first(), b);
    }
}

/// The tokens of one escaped word.
pub open spec fn esc_tokens(e: Seq<char>) -> Seq<Seq<char>> {
    split_us(esc(e))
}

/// The tokens of a list of escaped words, in order.
pub open spec fn flatten_esc(elems: Seq<Seq<char>>) -> Seq<Seq<char>>
    decreases elems.len(),
{
    if elems.len() == 0 {
        Seq::empty()
    } else {
        esc_tokens(elems[0]) + flatten_esc(elems.drop_first())
    }
}

proof fn lemma_split_joined_esc(comps: Seq<Seq<char>>)
    requires
        comps.len() >= 1,
    ensures
        split_us(joined_esc(comps)) =~~= flatten_esc(comps),
    decreases comps.len(),
{
    if comps.len() == 1 {
        assert(flatten_esc(comps.drop_first()) =~~= Seq::<Seq<char>>::empty());
        assert(esc_tokens(comps[0]) + Seq::<Seq<char>>::empty() =~~= esc_tokens(comps[0]));
    } else {
        lemma_split_joined_esc(comps.drop_first());
        lemma_split_sep(esc(comps[0]), joined_esc(comps.drop_first()));
    }
}

proof fn lemma_split_mangle(o: PathOrigin, comps: Seq<Seq<char>>, item: Seq<char>)
    ensures
        uscores(origin_mark(o)) == 0,
        split_us(mangle_spec(o, comps, item)) =~~= seq![origin_mark(o)] + (if comps.len() == 0 {
            seq![Seq::<char>::empty()] + esc_tokens(item)
        } else {
            flatten_esc(comps.push(item))
        }),
{
    assert(uscores(origin_mark(o)) == 0) by {
        reveal_with_fuel(uscores, 9);
    }
    let body = mangle_body(comps, item);
    assert(mangle_spec(o, comps, item) =~= origin_mark(o) + seq!['_'] + body);
    lemma_split_sep(origin_mark(o), body);
    lemma_split_no_us(origin_mark(o));
    if comps.len() == 0 {
        assert(body =~= seq!['_'] + esc(item));
        assert(Seq::<char>::empty() + seq!['_'] + esc(item) =~= seq!['_'] + esc(item));
        lemma_split_sep(Seq::<char>::empty(), esc(item));
        assert(split_us(Seq::<char>::empty()) =~~= seq![Seq::<char>::empty()]);
    } else {
        assert(body =~= joined_esc(comps) + seq!['_'] + esc(item));
        lemma_split_sep(joined_esc(comps), esc(item));
        lemma_split_joined_esc(comps);
        assert(flatten_esc(comps.push(item)) =~~= flatten_esc(comps) + esc_tokens(item)) by {
            lemma_flatten_esc_push(comps, item);
        }
    }
}

proof fn lemma_flatten_esc_push(elems: Seq<Seq<char>>, x: Seq<char>)
    ensures
        flatten_esc(elems.push(x)) =~~= flatten_esc(elems) + esc_tokens(x),
    decreases elems.len(),
{
    if elems.len() == 0 {
        assert(elems.push(x)[0] == x);
        assert(elems.push(x).drop_first() =~= Seq::<Seq<char>>::empty());
        assert(flatten_esc(elems.push(x)) == esc_tokens(x) + flatten_esc(
            Seq::<Seq<char>>::empty(),
        ));
        assert(flatten_esc(Seq::<Seq<char>>::empty()) == Seq::<Seq<char>>::empty());
        assert(flatten_esc(elems) == Seq::<Seq<char>>::empty());
    } else {
        assert(elems.push(x)[0] == elems[0]);
        assert(elems.push(x).drop_first() =~= elems.drop_first().push(x));
        lemma_flatten_esc_push(elems.drop_first(), x);
        assert(flatten_esc(elems.push(x)) == esc_tokens(elems[0]) + flatten_esc(
            elems.drop_first().push(x),
        ));
        assert(flatten_esc(elems) == esc_tokens(elems[0]) + flatten_esc(elems.drop_first()));
    }
}

/// Parses a token stream back into the words whose escaped forms it joined.
///
/// A non-empty token is a word without underscores; an empty token announces
/// an escaped word: the next token carries the underscore count and the
/// word's first piece, and as many further tokens follow as the count says.
pub open spec fn parse_elems(ts: Seq<Seq<char>>) -> Option<Seq<Seq<char>>>
    decreases ts.len(),
{
    if ts.len() == 0 {
        Some(Seq::empty())
    } else if ts[0].len() > 0 {
        match parse_elems(ts.drop_first()) {
            Some(rest) => Some(seq![ts[0]] + rest),
            None => None,
        }
    } else if ts.len() < 2 {
        None
    } else {
        let t1 = ts[1];
        let d = dpl(t1) as int;
        if d == 0 {
            None
        } else {
            let n = dec_val(t1.take(d)) as int;
            if ts.len() < 2 + n {
                None
            } else {
                let elem = join_us(seq![t1.skip(d)] + ts.subrange(2, 2 + n));
                match parse_elems(ts.skip(2 + n)) {
                    Some(rest) => Some(seq![elem] + rest),
                    None => None,
                }
            }
        }
    }
}

proof fn lemma_parse_step(e: Seq<char>, rest: Seq<Seq<char>>)
    requires
        wf_word(e),
    ensures
        parse_elems(esc_tokens(e) + rest) == (match parse_elems(rest) {
            Some(r) => Some(seq![e] + r),
            None => None::<Seq<Seq<char>>>,
        }),
{
    let u = uscores(e);
    if u == 0 {
        lemma_split_no_us(e);
        let ts = esc_tokens(e) + rest;
        assert(esc_tokens(e) =~~= seq![e]);
        assert(ts[0] == e);
        assert(e.len() > 0);
        assert(ts.drop_first() =~~= rest);
    } else {
        lemma_dec_val_rep(u);
        lemma_no_us_of_digits(dec_rep(u));
        let p = split_us(e);
        lemma_split_len(e);
        lemma_join_split(e);
        assert(esc(e) =~= Seq::<char>::empty() + seq!['_'] + (dec_rep(u) + e));
        lemma_split_sep(Seq::<char>::empty(), dec_rep(u) + e);
        lemma_split_prefix(dec_rep(u), e);
        let p0 = p[0];
        let t1 = dec_rep(u) + p0;
        assert(esc_tokens(e) =~~= seq![Seq::<char>::empty()] + (seq![t1] + p.drop_first()));
        let ts = esc_tokens(e) + rest;
        assert(ts.len() == 2 + u + rest.len());
        assert(ts[0].len() == 0);
        assert(ts[1] == t1);
        // the digit prefix of the count token is exactly the count
        assert(e.len() > 0);
        if e[0] == '_' {
            assert(p0.len() == 0);
        } else {
            let r0 = split_us(e.drop_first());
            assert(p0 == seq![e[0]] + r0[0]);
            assert(p0.len() > 0 && p0[0] == e[0]);
            assert(!is_digit_char(p0[0]));
        }
        lemma_dpl_append(dec_rep(u), p0);
        let d = dpl(t1) as int;
        assert(d == dec_rep(u).len());
        assert(d >= 1);
        assert(t1.take(d) =~= dec_rep(u));
        assert(dec_val(t1.take(d)) == u);
        assert(ts.len() >= 2 + u);
        assert(t1.skip(d) =~= p0);
        assert(ts.subrange(2, 2 + u as int) =~~= p.drop_first());
        assert(seq![p0] + p.drop_first() =~~= p);
        assert(join_us(seq![t1.skip(d)] + ts.subrange(2, 2 + u as int)) =~= e) by {
            assert(seq![t1.skip(d)] + ts.subrange(2, 2 + u as int) =~~= p);
            assert(join_us(p) =~= e);
        }
        assert(ts.skip(2 + u as int) =~~= rest);
    }
}

proof fn lemma_parse_complete(elems: Seq<Seq<char>>)
    requires
        forall|i: int| 0 <= i < elems.len() ==> wf_word(#[trigger] elems[i]),
    ensures
        parse_elems(flatten_esc(elems)) == Some(elems),
    decreases elems.len(),
{
    if elems.len() == 0 {
        assert(flatten_esc(elems) == Seq::<Seq<char>>::empty());
        assert(parse_elems(Seq::<Seq<char>>::empty()) == Some(Seq::<Seq<char>>::empty()));
    } else {
        assert(forall|i: int|
            0 <= i < elems.drop_first().len() ==> #[trigger] elems.drop_first()[i] == elems[i
                + 1]);
        lemma_parse_complete(elems.drop_first());
        lemma_parse_step(elems[0], flatten_esc(elems.drop_first()));
        assert(flatten_esc(elems) == esc_tokens(elems[0]) + flatten_esc(elems.drop_first()));
        assert(seq![elems[0]] + elems.drop_first() =~~= elems);
    }
}

proof fn lemma_uscores_zero(s: Seq<char>)
    requires
        forall|k: int| 0 <= k < s.len() ==> s[k] != '_',
    ensures
        uscores(s) == 0,
    decreases s.len(),
{
    if s.len() > 0 {
        assert(forall|k: int|
            0 <= k < s.drop_first().len() ==> #[trigger] s.drop_first()[k] == s[k + 1]);
        lemma_uscores_zero(s.drop_first());
    }
}

proof fn lemma_split_at_first(s: Seq<char>, i: int)
    requires
        0 <= i < s.len(),
        s[i] == '_',
        forall|k: int| 0 <= k < i ==> s[k] != '_',
    ensures
        split_us(s) =~~= seq![s.take(i)] + split_us(s.skip(i + 1)),
    decreases i,
{
    if i == 0 {
        assert(s.take(0) =~= Seq::<char>::empty());
        assert(s.skip(1) =~= s.drop_first());
    } else {
        assert(s[0] != '_');
        assert(forall|k: int|
            0 <= k < s.drop_first().len() ==> #[trigger] s.drop_first()[k] == s[k + 1]);
        lemma_split_at_first(s.drop_first(), i - 1);
        let r = split_us(s.drop_first());
        assert(r[0] == s.drop_first().take(i - 1));
        assert(seq![s[0]] + s.drop_first().take(i - 1) =~= s.take(i));
        assert(r.drop_first() =~~= split_us(s.drop_first().skip(i)));
        assert(s.drop_first().skip(i) =~= s.skip(i + 1));
    }
}

/// Appends all characters of `src` to `dst`.
fn extend_chars(dst: &mut Vec<char>, src: &Vec<char>)
    ensures
        final(dst)@ == old(dst)@ + src@,
{
    let mut i: usize = 0;
    while i < src.len()
        invariant
            0 <= i <= src@.len(),
            dst@ == old(dst)@ + src@.take(i as int),
        decreases src@.len() - i,
    {
        dst.push(src[i]);
        proof {
            assert(dst@ =~= old(dst)@ + src@.take(i + 1 as int));
        }
        i = i + 1;
    }
    proof {
        assert(src@.take(src@.len() as int) =~= src@);
    }
}

/// The index of the first underscore at or after `from`, if any.
fn find_us(s: &Vec<char>, from: usize) -> (r: Option<usize>)
    requires
        from <= s@.len(),
    ensures
        match r {
            Some(j) => from <= j < s@.len() && s@[j as int] == '_' && (forall|k: int|
                from <= k < j ==> s@[k] != '_'),
            None => forall|k: int| from <= k < s@.len() ==> s@[k] != '_',
        },
{
    let mut i: usize = from;
    while i < s.len()
        invariant
            from <= i <= s@.len(),
            forall|k: int| from <= k < i ==> s@[k] != '_',
        decreases s@.len() - i,
    {
        if s[i] == '_' {
            return Some(i);
        }
        i = i + 1;
    }
    None
}

/// Splits `s` on every underscore.
fn split_chars(s: &Vec<char>) -> (r: Vec<Vec<char>>)
    ensures
        charss_view(r@) == split_us(s@),
{
    let mut out: Vec<Vec<char>> = Vec::new();
    let mut pos: usize = 0;
    let slen = s.len();
    proof {
        assert(s@.skip(0) =~= s@);
        assert(charss_view(out@) =~~= Seq::<Seq<char>>::empty());
        assert(split_us(s@) =~~= charss_view(out@) + split_us(s@.skip(0)));
    }
    loop
        invariant
            pos <= s@.len(),
            slen == s@.len(),
            split_us(s@) =~~= charss_view(out@) + split_us(s@.skip(pos as int)),
        decreases s@.len() - pos,
    {
        match find_us(s, pos) {
            Some(j) => {
                proof {
                    assert(j < s@.len());
                }
                let piece = sub_chars(s, pos, j);
                proof {
                    let suf = s@.skip(pos as int);
                    assert(suf[j - pos] == '_');
                    assert(forall|k: int| 0 <= k < j - pos ==> suf[k] != '_');
                    lemma_split_at_first(suf, j - pos);
                    assert(suf.take(j - pos) =~= s@.subrange(pos as int, j as int));
                    assert(suf.skip(j - pos + 1) =~= s@.skip(j + 1 as int));
                    assert(charss_view(out@.push(piece)) =~~= charss_view(out@) + seq![piece@]);
                }
                out.push(piece);
                pos = j + 1;
            },
            None => {
                let piece = sub_chars(s, pos, s.len());
                proof {
                    let suf = s@.skip(pos as int);
                    lemma_uscores_zero(suf);
                    lemma_split_no_us(suf);
                    assert(suf =~= s@.subrange(pos as int, s@.len() as int));
                    assert(charss_view(out@.push(piece)) =~~= charss_view(out@) + seq![piece@]);
                }
                out.push(piece);
                proof {
                    assert(charss_view(out@) =~~= split_us(s@));
                }
                return out;
            },
        }
    }
}

/// The value of the digit character `c`.
fn digit_val_exec(c: char) -> (d: usize)
    requires
        is_digit_char(c),
    ensures
        d == digit_val(c),
        d < 10,
{
    if c == '0' {
        0
    } else if c == '1' {
        1
    } else if c == '2' {
        2
    } else if c == '3' {
        3
    } else if c == '4' {
        4
    } else if c == '5' {
        5
    } else if c == '6' {
        6
    } else if c == '7' {
        7
    } else if c == '8' {
        8
    } else {
        9
    }
}

proof fn lemma_dpl_digits(t: Seq<char>)
    ensures
        dpl(t) <= t.len(),
        forall|k: int| 0 <= k < dpl(t) ==> is_digit_char(#[trigger] t[k]),
    decreases t.len(),
{
    if t.len() > 0 && is_digit_char(t[0]) {
        lemma_dpl_digits(t.drop_first());
        assert(forall|k: int|
            0 <= k < t.drop_first().len() ==> #[trigger] t.drop_first()[k] == t[k + 1]);
        assert forall|k: int| 0 <= k < dpl(t) implies is_digit_char(#[trigger] t[k]) by {
            if k > 0 {
                assert(t[k] == t.drop_first()[k - 1]);
                assert(k - 1 < dpl(t.drop_first()));
            }
        }
    }
}

/// The number of leading digit characters of `t`.
fn digit_prefix_len(t: &Vec<char>) -> (d: usize)
    ensures
        d == dpl(t@),
{
    let mut i: usize = 0;
    while i < t.len()
        invariant
            0 <= i <= t@.len(),
            forall|k: int| 0 <= k < i ==> is_digit_char(#[trigger] t@[k]),
        decreases t@.len() - i,
    {
        if !check_digit_char(t[i]) {
            proof {
                assert(t@ =~= t@.take(i as int) + t@.skip(i as int));
                assert(t@.skip(i as int)[0] == t@[i as int]);
                lemma_dpl_append(t@.take(i as int), t@.skip(i as int));
            }
            return i;
        }
        i = i + 1;
    }
    proof {
        assert(t@ =~= t@.take(t@.len() as int) + t@.skip(t@.len() as int));
        lemma_dpl_append(t@.take(t@.len() as int), t@.skip(t@.len() as int));
    }
    t.len()
}

proof fn lemma_dec_val_step(t: Seq<char>, i: int)
    requires
        0 <= i < t.len(),
        is_digit_char(t[i]),
    ensures
        dec_val(t.take(i + 1)) == dec_val(t.take(i)) * 10 + digit_val(t[i]),
{
    assert(t.take(i + 1).drop_last() =~= t.take(i));
    assert(t.take(i + 1).last() == t[i]);
}

proof fn lemma_dec_val_mono(t: Seq<char>, i: int, j: int)
    requires
        0 <= i <= j <= t.len(),
        forall|k: int| 0 <= k < t.len() ==> is_digit_char(#[trigger] t[k]),
    ensures
        dec_val(t.take(i)) <= dec_val(t.take(j)),
    decreases j - i,
{
    if i < j {
        lemma_dec_val_mono(t, i, j - 1);
        lemma_dec_val_step(t, j - 1);
    }
}

/// The value of the first `d` digit characters of `t`, unless it exceeds `cap`.
fn dec_value_capped(t: &Vec<char>, d: usize, cap: usize) -> (r: Option<usize>)
    requires
        d <= t@.len(),
        forall|k: int| 0 <= k < d ==> is_digit_char(#[trigger] t@[k]),
    ensures
        match r {
            Some(n) => n == dec_val(t@.take(d as int)) && n <= cap,
            None => dec_val(t@.take(d as int)) > cap,
        },
{
    let mut acc: u128 = 0;
    let capw: u128 = cap as u128;
    let mut i: usize = 0;
    while i < d
        invariant
            0 <= i <= d <= t@.len(),
            forall|k: int| 0 <= k < d ==> is_digit_char(#[trigger] t@[k]),
            capw == cap as u128,
            acc == dec_val(t@.take(i as int)),
            acc <= capw,
        decreases d - i,
    {
        let dv = digit_val_exec(t[i]);
        proof {
            lemma_dec_val_step(t@, i as int);
        }
        acc = acc * 10 + (dv as u128);
        i = i + 1;
        if acc > capw {
            proof {
                assert(forall|k: int|
                    0 <= k < (t@.take(d as int)).len() ==> is_digit_char(
                        #[trigger] (t@.take(d as int))[k],
                    ));
                lemma_dec_val_mono(t@.take(d as int), i as int, d as int);
                assert(t@.take(d as int).take(i as int) =~= t@.take(i as int));
                assert(t@.take(d as int).take(d as int) =~= t@.take(d as int));
            }
            return None;
        }
    }
    Some(acc as usize)
}

/// Parses tokens into words, following [`parse_elems`] exactly.
fn parse_elements(ts: &Vec<Vec<char>>) -> (r: Option<Vec<Vec<char>>>)
    ensures
        match r {
            Some(v) => parse_elems(charss_view(ts@)) == Some(charss_view(v@)),
            None => parse_elems(charss_view(ts@)) is None,
        },
{
    let ghost full = charss_view(ts@);
    let mut out: Vec<Vec<char>> = Vec::new();
    let mut pos: usize = 0;
    let tslen = ts.len();
    proof {
        assert(full.skip(0) =~~= full);
        assert(charss_view(out@) =~~= Seq::<Seq<char>>::empty());
        assert(forall|rest: Seq<Seq<char>>| (charss_view(out@) + rest) =~~= rest);
    }
    loop
        invariant
            pos <= ts@.len(),
            tslen == ts@.len(),
            full == charss_view(ts@),
            parse_elems(full) == (match parse_elems(full.skip(pos as int)) {
                Some(rest) => Some(charss_view(out@) + rest),
                None => None::<Seq<Seq<char>>>,
            }),
        decreases ts@.len() - pos,
    {
        if pos >= ts.len() {
            proof {
                assert(full.skip(pos as int) =~~= Seq::<Seq<char>>::empty());
                assert(parse_elems(full) == Some(charss_view(out@) + Seq::<Seq<char>>::empty()));
                assert(charss_view(out@) + Seq::<Seq<char>>::empty() =~~= charss_view(out@));
            }
            return Some(out);
        }
        let ghost suf = full.skip(pos as int);
        proof {
            assert(suf.len() == ts@.len() - pos);
            assert(suf[0] == ts@[pos as int]@);
        }
        if ts[pos].len() > 0 {
            let piece = sub_chars(&ts[pos], 0, ts[pos].len());
            proof {
                assert(piece@ =~= ts@[pos as int]@);
                assert(suf.drop_first() =~~= full.skip(pos + 1 as int));
                assert(charss_view(out@.push(piece)) =~~= charss_view(out@) + seq![piece@]);
                assert(forall|rest: Seq<Seq<char>>|
                    (charss_view(out@) + (seq![suf[0]] + rest)) =~~= (charss_view(out@) + seq![
                        piece@,
                    ]) + rest);
            }
            out.push(piece);
            pos = pos + 1;
        } else {
            if pos + 1 >= ts.len() {
                proof {
                    assert(suf.len() < 2);
                    assert(parse_elems(suf) is None);
                }
                return None;
            }
            let t1 = &ts[pos + 1];
            proof {
                assert(suf[1] == ts@[pos + 1 as int]@);
            }
            let d = digit_prefix_len(t1);
            if d == 0 {
                proof {
                    assert(parse_elems(suf) is None);
                }
                return None;
            }
            let remaining = ts.len() - (pos + 2);
            proof {
                lemma_dpl_digits(t1@);
            }
            match dec_value_capped(t1, d, remaining) {
                None => {
                    proof {
                        assert(dec_val(t1@.take(d as int)) > remaining);
                        assert(suf.len() < 2 + dec_val(suf[1].take(dpl(suf[1]) as int)));
                        assert(parse_elems(suf) is None);
                    }
                    return None;
                },
                Some(n) => {
                    let mut elem = sub_chars(t1, d, t1.len());
                    let ghost head = t1@.skip(d as int);
                    let mut k: usize = 0;
                    while k < n
                        invariant
                            0 <= k <= n,
                            pos + 2 + n <= ts@.len(),
                            ts@.len() <= usize::MAX,
                            full == charss_view(ts@),
                            elem@ == join_us(
                                seq![head] + full.subrange(pos + 2 as int, pos + 2 + k as int),
                            ),
                        decreases n - k,
                    {
                        elem.push('_');
                        extend_chars(&mut elem, &ts[pos + 2 + k]);
                        proof {
                            let q = seq![head] + full.subrange(pos + 2 as int, pos + 2 + k as int);
                            let q2 = seq![head] + full.subrange(
                                pos + 2 as int,
                                pos + 2 + (k + 1) as int,
                            );
                            assert(q2 =~~= q.push(full[pos + 2 + k as int]));
                            lemma_join_us_push(q, full[pos + 2 + k as int]);
                            assert(full[pos + 2 + k as int] == ts@[pos + 2 + k as int]@);
                            assert(elem@ =~= join_us(q2));
                        }
                        k = k + 1;
                    }
                    proof {
                        assert(seq![head] + full.subrange(pos + 2 as int, pos + 2 + n as int)
                            =~~= seq![suf[1].skip(dpl(suf[1]) as int)] + suf.subrange(
                            2,
                            2 + n as int,
                        ));
                        assert(suf.skip(2 + n as int) =~~= full.skip(pos + 2 + n as int));
                        assert(charss_view(out@.push(elem)) =~~= charss_view(out@) + seq![elem@]);
                        assert(forall|rest: Seq<Seq<char>>|
                            (charss_view(out@) + (seq![elem@] + rest)) =~~= (charss_view(out@)
                                + seq![elem@]) + rest);
                    }
                    out.push(elem);
                    pos = pos + 2 + n;
                },
            }
        }
    }
}

proof fn lemma_join_us_push(q: Seq<Seq<char>>, x: Seq<char>)
    requires
        q.len() >= 1,
    ensures
        join_us(q.push(x)) == join_us(q) + seq!['_'] + x,
    decreases q.len(),
{
    if q.len() == 1 {
        assert(q.push(x).drop_first() =~~= seq![x]);
        assert(join_us(seq![x]) == x);
    } else {
        assert(q.push(x)[0] == q[0]);
        assert(q.push(x).drop_first() =~~= q.drop_first().push(x));
        lemma_join_us_push(q.drop_first(), x);
    }
}

proof fn lemma_esc_tokens_shape(e: Seq<char>)
    requires
        wf_word(e),
    ensures
        esc_tokens(e).len() >= 1,
        uscores(e) == 0 ==> esc_tokens(e) == seq![e] && e.len() > 0 && !is_digit_char(e[0]),
        uscores(e) > 0 ==> esc_tokens(e).len() == uscores(e) + 2 && esc_tokens(e)[0].len() == 0
            && esc_tokens(e)[1].len() > 0 && is_digit_char(esc_tokens(e)[1][0]),
{
    let u = uscores(e);
    if u == 0 {
        lemma_split_no_us(e);
        assert(esc_tokens(e) =~~= seq![e]);
    } else {
        lemma_dec_val_rep(u);
        lemma_no_us_of_digits(dec_rep(u));
        lemma_split_len(e);
        assert(esc(e) =~= Seq::<char>::empty() + seq!['_'] + (dec_rep(u) + e));
        lemma_split_sep(Seq::<char>::empty(), dec_rep(u) + e);
        lemma_split_prefix(dec_rep(u), e);
        let p = split_us(e);
        let t1 = dec_rep(u) + p[0];
        assert(esc_tokens(e) =~~= seq![Seq::<char>::empty()] + (seq![t1] + p.drop_first()));
        assert(esc_tokens(e)[0].len() == 0);
        assert(esc_tokens(e)[1] == t1);
        assert(t1[0] == dec_rep(u)[0]);
        assert(is_digit_char(dec_rep(u)[0]));
    }
}

/// `(o, comps, item)` is a well-formed preimage of the identifier `m`.
pub open spec fn preimage(m: Seq<char>, o: PathOrigin, comps: Seq<Seq<char>>, item: Seq<char>) -> bool {
    wf_comps(comps) && wf_word(item) && m == mangle_spec(o, comps, item)
}

proof fn lemma_mangle_shape(o: PathOrigin, comps: Seq<Seq<char>>, item: Seq<char>)
    requires
        wf_comps(comps),
        wf_word(item),
    ensures
        ({
            let ts = split_us(mangle_spec(o, comps, item));
            &&& ts.len() >= 2
            &&& ts[0] == origin_mark(o)
            &&& (comps.len() == 0 ==> ts[1].len() == 0 && ts.len() >= 3 && (ts[2].len() == 0
                || !is_digit_char(ts[2][0])) && ts.skip(2) == esc_tokens(item) && parse_elems(
                ts.skip(2),
            ) == Some(seq![item]))
            &&& (comps.len() > 0 ==> ts.skip(1) == flatten_esc(comps.push(item)) && parse_elems(
                ts.skip(1),
            ) == Some(comps.push(item)) && (ts[1].len() > 0 || (ts.len() >= 3 && ts[2].len() > 0
                && is_digit_char(ts[2][0]))))
        }),
{
    lemma_split_mangle(o, comps, item);
    let ts = split_us(mangle_spec(o, comps, item));
    lemma_esc_tokens_shape(item);
    if comps.len() == 0 {
        assert(ts =~~= seq![origin_mark(o)] + (seq![Seq::<char>::empty()] + esc_tokens(item)));
        assert(ts[0] == origin_mark(o));
        assert(ts[1].len() == 0);
        assert(ts.len() == 2 + esc_tokens(item).len());
        assert(ts[2] == esc_tokens(item)[0]);
        if uscores(item) == 0 {
            assert(ts[2] == item);
            assert(!is_digit_char(ts[2][0]));
        } else {
            assert(ts[2].len() == 0);
        }
        assert(ts.skip(2) =~~= esc_tokens(item));
        lemma_parse_complete(seq![item]);
        assert(flatten_esc(seq![item]) =~~= esc_tokens(item)) by {
            assert(seq![item].drop_first() =~~= Seq::<Seq<char>>::empty());
            assert(esc_tokens(item) + flatten_esc(Seq::<Seq<char>>::empty()) =~~= esc_tokens(
                item,
            ));
        }
        assert(parse_elems(ts.skip(2)) == Some(seq![item]));
    } else {
        assert(ts =~~= seq![origin_mark(o)] + flatten_esc(comps.push(item)));
        assert(ts[0] == origin_mark(o));
        assert(ts.skip(1) =~~= flatten_esc(comps.push(item)));
        let q = comps.push(item);
        assert(forall|i: int| 0 <= i < q.len() ==> wf_word(#[trigger] q[i])) by {
            assert(forall|i: int| 0 <= i < comps.len() ==> q[i] == comps[i]);
            assert(q[comps.len() as int] == item);
        }
        lemma_parse_complete(q);
        // the head of the flattened tokens decides against the empty-path marker
        let e0 = comps[0];
        lemma_esc_tokens_shape(e0);
        assert(q[0] == e0);
        assert(flatten_esc(q) == esc_tokens(e0) + flatten_esc(q.drop_first()));
        assert(wf_word(e0));
        if uscores(e0) == 0 {
            assert(esc_tokens(e0) == seq![e0]);
            assert(ts[1] == e0);
            assert(ts[1].len() > 0);
        } else {
            assert(esc_tokens(e0).len() >= 3);
            assert(ts[1] == esc_tokens(e0)[0]);
            assert(ts[2] == esc_tokens(e0)[1]);
            assert(ts.len() >= 3);
            assert(ts[2].len() > 0 && is_digit_char(ts[2][0]));
        }
    }
}

/// The tokens of `ts` from `from` (inclusive) to `to` (exclusive), copied.
fn slice_tokens(ts: &Vec<Vec<char>>, from: usize, to: usize) -> (r: Vec<Vec<char>>)
    requires
        from <= to <= ts@.len(),
    ensures
        charss_view(r@) == charss_view(ts@).subrange(from as int, to as int),
{
    let mut r: Vec<Vec<char>> = Vec::new();
    let mut i: usize = from;
    while i < to
        invariant
            from <= i <= to <= ts@.len(),
            charss_view(r@) =~~= charss_view(ts@).subrange(from as int, i as int),
        decreases to - i,
    {
        let piece = sub_chars(&ts[i], 0, ts[i].len());
        proof {
            assert(piece@ =~= ts@[i as int]@);
            assert(charss_view(r@.push(piece)) =~~= charss_view(r@) + seq![piece@]);
            assert(charss_view(ts@).subrange(from as int, i + 1 as int) =~~= charss_view(
                ts@,
            ).subrange(from as int, i as int) + seq![charss_view(ts@)[i as int]]);
        }
        r.push(piece);
        i = i + 1;
    }
    r
}

/// Recovers the module path and item name that [`mangle`] flattened into
/// `mangled`, or nothing if `mangled` was not produced by the scheme.
///
/// The contract pins the codec down in both directions: a returned pair
/// re-mangles to exactly the input, and every well-formed pair whose mangled
/// form is the input is recovered unchanged. Inputs from unrelated naming
/// conventions give `None` rather than an error.
pub fn unmangle(mangled: &str) -> (r: Option<(ModulePath, String)>)
    ensures
        r matches Some(pr) ==> wf_module_path(&pr.0) && wf_word(pr.1@) && mangled@ == mangle_spec(
            pr.0.origin,
            pr.0.comps(),
            pr.1@,
        ),
        forall|o: PathOrigin, comps: Seq<Seq<char>>, item: Seq<char>|
            #[trigger] preimage(mangled@, o, comps, item) ==> r is Some && r.unwrap().0.origin == o
                && r.unwrap().0.comps() == comps && r.unwrap().1@ == item,
{
    let cs = str_to_chars(mangled);
    let tokens = split_chars(&cs);
    let ghost ts = split_us(mangled@);
    proof {
        assert(charss_view(tokens@) == ts);
        assert(tokens@.len() == ts.len()) by {
            assert(charss_view(tokens@).len() == tokens@.len());
        }
    }
    if tokens.len() < 2 {
        proof {
            assert forall|o: PathOrigin, comps: Seq<Seq<char>>, item: Seq<char>|
                #[trigger] preimage(mangled@, o, comps, item) implies false by {
                lemma_mangle_shape(o, comps, item);
            }
        }
        return None;
    }
    let pkg: Vec<char> = vec!['p', 'a', 'c', 'k', 'a', 'g', 'e'];
    let slf: Vec<char> = vec!['s', 'e', 'l', 'f'];
    proof {
        assert(pkg@ =~= package_mark());
        assert(slf@ =~= self_mark());
    }
    let origin: PathOrigin;
    if chars_eq(&tokens[0], &pkg) {
        origin = PathOrigin::Absolute;
    } else if chars_eq(&tokens[0], &slf) {
        origin = PathOrigin::PackageRelative;
    } else {
        proof {
            assert forall|o: PathOrigin, comps: Seq<Seq<char>>, item: Seq<char>|
                #[trigger] preimage(mangled@, o, comps, item) implies false by {
                lemma_mangle_shape(o, comps, item);
                assert(ts[0] == origin_mark(o));
                assert(tokens@[0]@ == ts[0]);
            }
        }
        return None;
    }
    proof {
        assert(tokens@[0]@ == origin_mark(origin));
        assert(ts[0] == origin_mark(origin));
    }
    // a leading empty token that does not continue into an escape announces an
    // empty component list
    let marker: bool = if tokens[1].len() == 0 {
        if tokens.len() >= 3 && tokens[2].len() > 0 && check_digit_char(tokens[2][0]) {
            false
        } else {
            true
        }
    } else {
        false
    };
    proof {
        assert(tokens@[1]@ == ts[1]);
        assert(forall|k: int| 0 <= k < ts.len() ==> #[trigger] tokens@[k]@ == ts[k]);
    }
    if marker {
        let rest = slice_tokens(&tokens, 2, tokens.len());
        proof {
            assert(charss_view(rest@) =~~= ts.skip(2));
        }
        let parsed = parse_elements(&rest);
        proof {
            // under any preimage, the path must be empty and the item parses out
            assert forall|o: PathOrigin, comps: Seq<Seq<char>>, item: Seq<char>|
                #[trigger] preimage(mangled@, o, comps, item) implies comps.len() == 0
                && parse_elems(ts.skip(2)) == Some(seq![item]) && origin_mark(o) == origin_mark(
                origin,
            ) by {
                lemma_mangle_shape(o, comps, item);
                if comps.len() > 0 {
                    assert(ts[1].len() > 0 || (ts.len() >= 3 && ts[2].len() > 0 && is_digit_char(
                        ts[2][0],
                    )));
                    assert(tokens@[1]@.len() == 0);
                    if ts.len() >= 3 {
                        assert(tokens@[2]@ == ts[2]);
                    }
                }
            }
        }
        match parsed {
            None => {
                proof {
                    assert forall|o: PathOrigin, comps: Seq<Seq<char>>, item: Seq<char>|
                        #[trigger] preimage(mangled@, o, comps, item) implies false by {
                        assert(parse_elems(charss_view(rest@)) is None);
                    }
                }
                return None;
            },
            Some(elems) => {
                proof {
                    assert(parse_elems(ts.skip(2)) == Some(charss_view(elems@)));
                }
                if elems.len() != 1 {
                    proof {
                        assert forall|o: PathOrigin, comps: Seq<Seq<char>>, item: Seq<char>|
                            #[trigger] preimage(mangled@, o, comps, item) implies false by {
                            assert(parse_elems(ts.skip(2)) == Some(seq![item]));
                            assert(charss_view(elems@) == seq![item]);
                            assert(charss_view(elems@).len() == elems@.len());
                        }
                    }
                    return None;
                }
                if !check_wf_word(&elems[0]) {
                    proof {
                        assert forall|o: PathOrigin, comps: Seq<Seq<char>>, item: Seq<char>|
                            #[trigger] preimage(mangled@, o, comps, item) implies false by {
                            assert(parse_elems(ts.skip(2)) == Some(seq![item]));
                            assert(charss_view(elems@) == seq![item]);
                            assert(charss_view(elems@)[0] == elems@[0]@);
                            assert(elems@[0]@ == item);
                        }
                    }
                    return None;
                }
                let comps_vec: Vec<Vec<char>> = Vec::new();
                let item_chars = sub_chars(&elems[0], 0, elems[0].len());
                proof {
                    assert(item_chars@ =~= elems@[0]@);
                }
                let remangled = mangle_core(origin, &comps_vec, &item_chars);
                proof {
                    assert(charss_view(comps_vec@) =~~= Seq::<Seq<char>>::empty());
                }
                if !chars_eq(&cs, &remangled) {
                    proof {
                        assert forall|o: PathOrigin, comps: Seq<Seq<char>>, item: Seq<char>|
                            #[trigger] preimage(mangled@, o, comps, item) implies false by {
                            assert(parse_elems(ts.skip(2)) == Some(seq![item]));
                            assert(charss_view(elems@) == seq![item]);
                            assert(charss_view(elems@)[0] == elems@[0]@);
                            assert(elems@[0]@ == item);
                            assert(origin_mark(o) == origin_mark(origin));
                            assert(o == origin) by {
                                if o != origin {
                                    assert(package_mark().len() == 7);
                                    assert(self_mark().len() == 4);
                                }
                            }
                            assert(comps =~~= charss_view(comps_vec@));
                            assert(remangled@ == mangle_spec(o, comps, item));
                            assert(cs@ == mangled@);
                        }
                    }
                    return None;
                }
                let item_s = chars_to_string(&item_chars);
                let path = ModulePath { origin, components: Vec::new() };
                proof {
                    assert(path.comps() =~~= charss_view(comps_vec@));
                    assert(mangled@ == mangle_spec(path.origin, path.comps(), item_s@));
                    assert(wf_module_path(&path));
                    assert forall|o: PathOrigin, comps: Seq<Seq<char>>, item: Seq<char>|
                        #[trigger] preimage(mangled@, o, comps, item) implies o == path.origin
                        && comps == path.comps() && item == item_s@ by {
                        assert(parse_elems(ts.skip(2)) == Some(seq![item]));
                        assert(charss_view(elems@) == seq![item]);
                        assert(charss_view(elems@)[0] == elems@[0]@);
                        assert(elems@[0]@ == item);
                        assert(o == origin) by {
                            if o != origin {
                                assert(package_mark().len() == 7);
                                assert(self_mark().len() == 4);
                            }
                        }
                        assert(comps =~~= path.comps());
                    }
                }
                return Some((path, item_s));
            },
        }
    } else {
        let rest = slice_tokens(&tokens, 1, tokens.len());
        proof {
            assert(charss_view(rest@) =~~= ts.skip(1));
            // under any preimage, the path is non-empty here and parses out
            assert forall|o: PathOrigin, comps: Seq<Seq<char>>, item: Seq<char>|
                #[trigger] preimage(mangled@, o, comps, item) implies comps.len() > 0
                && parse_elems(ts.skip(1)) == Some(comps.push(item)) && origin_mark(o)
                == origin_mark(origin) by {
                lemma_mangle_shape(o, comps, item);
                if comps.len() == 0 {
                    assert(ts[1].len() == 0);
                    assert(ts.len() >= 3 && (ts[2].len() == 0 || !is_digit_char(ts[2][0])));
                    assert(tokens@[1]@ == ts[1]);
                    assert(tokens@[2]@ == ts[2]);
                }
            }
        }
        let parsed = parse_elements(&rest);
        match parsed {
            None => {
                proof {
                    assert forall|o: PathOrigin, comps: Seq<Seq<char>>, item: Seq<char>|
                        #[trigger] preimage(mangled@, o, comps, item) implies false by {
                        assert(parse_elems(charss_view(rest@)) is None);
                    }
                }
                return None;
            },
            Some(elems) => {
                proof {
                    assert(parse_elems(ts.skip(1)) == Some(charss_view(elems@)));
                }
                if elems.len() < 2 {
                    proof {
                        assert forall|o: PathOrigin, comps: Seq<Seq<char>>, item: Seq<char>|
                            #[trigger] preimage(mangled@, o, comps, item) implies false by {
                            assert(parse_elems(ts.skip(1)) == Some(comps.push(item)));
                            assert(charss_view(elems@) == comps.push(item));
                            assert(charss_view(elems@).len() == comps.len() + 1);
                            assert(charss_view(elems@).len() == elems@.len());
                        }
                    }
                    return None;
                }
                let mut i: usize = 0;
                let mut all_wf = true;
                while i < elems.len()
                    invariant
                        0 <= i <= elems@.len(),
                        all_wf ==> forall|k: int| 0 <= k < i ==> wf_word(#[trigger] elems@[k]@),
                        !all_wf ==> exists|k: int|
                            0 <= k < elems@.len() && !wf_word(#[trigger] elems@[k]@),
                    decreases elems@.len() - i,
                {
                    if !check_wf_word(&elems[i]) {
                        all_wf = false;
                    }
                    i = i + 1;
                }
                if !all_wf {
                    proof {
                        assert forall|o: PathOrigin, comps: Seq<Seq<char>>, item: Seq<char>|
                            #[trigger] preimage(mangled@, o, comps, item) implies false by {
                            let q = comps.push(item);
                            assert(parse_elems(ts.skip(1)) == Some(q));
                            assert(charss_view(elems@) == q);
                            assert(forall|k: int| 0 <= k < q.len() ==> wf_word(#[trigger] q[k]))
                                by {
                                assert(forall|k: int| 0 <= k < comps.len() ==> q[k] == comps[k]);
                                assert(q[comps.len() as int] == item);
                            }
                            let bad = choose|k: int|
                                0 <= k < elems@.len() && !wf_word(#[trigger] elems@[k]@);
                            assert(charss_view(elems@)[bad] == elems@[bad]@);
                            assert(q[bad] == elems@[bad]@);
                        }
                    }
                    return None;
                }
                let n_elems = elems.len();
                let comps_vec = slice_tokens(&elems, 0, n_elems - 1);
                let item_chars = sub_chars(&elems[n_elems - 1], 0, elems[n_elems - 1].len());
                proof {
                    assert(charss_view(comps_vec@) =~~= charss_view(elems@).take(
                        n_elems - 1 as int,
                    ));
                    assert(item_chars@ =~= charss_view(elems@)[n_elems - 1 as int]);
                }
                let remangled = mangle_core(origin, &comps_vec, &item_chars);
                if !chars_eq(&cs, &remangled) {
                    proof {
                        assert forall|o: PathOrigin, comps: Seq<Seq<char>>, item: Seq<char>|
                            #[trigger] preimage(mangled@, o, comps, item) implies false by {
                            let q = comps.push(item);
                            assert(parse_elems(ts.skip(1)) == Some(q));
                            assert(charss_view(elems@) == q);
                            assert(o == origin) by {
                                if o != origin {
                                    assert(package_mark().len() == 7);
                                    assert(self_mark().len() == 4);
                                }
                            }
                            assert(comps =~~= charss_view(comps_vec@)) by {
                                assert(q.take(q.len() - 1) =~~= comps);
                            }
                            assert(item == item_chars@) by {
                                assert(q[q.len() - 1] == item);
                            }
                            assert(remangled@ == mangle_spec(o, comps, item));
                            assert(cs@ == mangled@);
                        }
                    }
                    return None;
                }
                let mut components: Vec<String> = Vec::new();
                let mut j: usize = 0;
                while j < comps_vec.len()
                    invariant
                        0 <= j <= comps_vec@.len(),
                        components@.len() == j,
                        forall|k: int|
                            0 <= k < j ==> #[trigger] components@[k]@ == comps_vec@[k]@,
                    decreases comps_vec@.len() - j,
                {
                    components.push(chars_to_string(&comps_vec[j]));
                    j = j + 1;
                }
                let item_s = chars_to_string(&item_chars);
                let path = ModulePath { origin, components };
                proof {
                    assert(path.comps() =~~= charss_view(comps_vec@));
                    assert(mangled@ == mangle_spec(path.origin, path.comps(), item_s@));
                    assert(wf_module_path(&path)) by {
                        assert(forall|k: int|
                            0 <= k < path.comps().len() ==> wf_word(#[trigger] path.comps()[k]));
                    }
                    assert forall|o: PathOrigin, comps: Seq<Seq<char>>, item: Seq<char>|
                        #[trigger] preimage(mangled@, o, comps, item) implies o == path.origin
                        && comps == path.comps() && item == item_s@ by {
                        let q = comps.push(item);
                        assert(parse_elems(ts.skip(1)) == Some(q));
                        assert(charss_view(elems@) == q);
                        assert(o == origin) by {
                            if o != origin {
                                assert(package_mark().len() == 7);
                                assert(self_mark().len() == 4);
                            }
                        }
                        assert(comps =~~= path.comps()) by {
                            assert(q.take(q.len() - 1) =~~= comps);
                        }
                        assert(item == item_s@) by {
                            assert(q[q.len() - 1] == item);
                        }
                    }
                }
                return Some((path, item_s));
            },
        }
    }
}

/// Distinct well-formed path-and-name pairs never mangle to the same string.
pub proof fn lemma_mangle_injective(
    o1: PathOrigin,
    c1: Seq<Seq<char>>,
    i1: Seq<char>,
    o2: PathOrigin,
    c2: Seq<Seq<char>>,
    i2: Seq<char>,
)
    requires
        wf_comps(c1),
        wf_word(i1),
        wf_comps(c2),
        wf_word(i2),
        mangle_spec(o1, c1, i1) == mangle_spec(o2, c2, i2),
    ensures
        o1 == o2,
        c1 == c2,
        i1 == i2,
{
    lemma_mangle_shape(o1, c1, i1);
    lemma_mangle_shape(o2, c2, i2);
    let ts = split_us(mangle_spec(o1, c1, i1));
    assert(origin_mark(o1) == origin_mark(o2));
    assert(o1 == o2) by {
        if o1 != o2 {
            assert(package_mark().len() == 7);
            assert(self_mark().len() == 4);
        }
    }
    if c1.len() == 0 && c2.len() == 0 {
        assert(Some(seq![i1]) == Some(seq![i2]));
        assert(seq![i1][0] == seq![i2][0]);
        assert(c1 =~~= c2);
    } else if c1.len() > 0 && c2.len() > 0 {
        let q1 = c1.push(i1);
        let q2 = c2.push(i2);
        assert(Some(q1) == Some(q2));
        assert(c1 =~~= c2) by {
            assert(q1.take(q1.len() - 1) =~~= c1);
            assert(q2.take(q2.len() - 1) =~~= c2);
        }
        assert(i1 == i2) by {
            assert(q1[q1.len() - 1] == i1);
            assert(q2[q2.len() - 1] == i2);
        }
    } else if c1.len() == 0 {
        assert(ts[1].len() == 0);
        assert(ts[1].len() > 0 || (ts.len() >= 3 && ts[2].len() > 0 && is_digit_char(ts[2][0])));
        assert(ts[2].len() == 0 || !is_digit_char(ts[2][0]));
        assert(false);
    } else {
        assert(ts[1].len() == 0);
        assert(ts[1].len() > 0 || (ts.len() >= 3 && ts[2].len() > 0 && is_digit_char(ts[2][0])));
        assert(ts[2].len() == 0 || !is_digit_char(ts[2][0]));
        assert(false);
    }
}

} // verus!
