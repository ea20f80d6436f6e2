//! Shell-style reference expansion for commit-message templates.
//!
//! A template may hold references of the form `$name` or `${name}`, where a
//! name is a run of ASCII letters, digits and underscores.  A purely numeric
//! name `N` (with value at most 32767) stands for the `N`-th whitespace token
//! of the step line, 1-based; any other name is looked up among the given
//! environment bindings.  A braced reference may carry a default,
//! `${name:-text}`, used when the name resolves to nothing.  An unresolvable
//! reference is left in place verbatim; `$$` stands for a single `$`; no
//! shell evaluation occurs.

use vstd::prelude::*;

use crate::model::assoc_lookup;
use crate::text::push_char;

verus! {

/// Whether `c` may appear in a reference name.
pub open spec fn is_name_char(c: char) -> bool {
    c == '_' || ('a' <= c && c <= 'z') || ('A' <= c && c <= 'Z') || ('0' <= c && c <= '9')
}

/// Executable form of [`is_name_char`].
pub fn name_char(c: char) -> (b: bool)
    ensures
        b == is_name_char(c),
{
    c == '_' || ('a' <= c && c <= 'z') || ('A' <= c && c <= 'Z') || ('0' <= c && c <= '9')
}

/// The length of the maximal name prefix of `s`.
pub open spec fn name_len(s: Seq<char>) -> nat
    decreases s.len(),
{
    if s.len() > 0 && is_name_char(s[0]) {
        1 + name_len(s.drop_first())
    } else {
        0
    }
}

pub proof fn lemma_name_len_le(s: Seq<char>)
    ensures
        name_len(s) <= s.len(),
    decreases s.len(),
{
    if s.len() > 0 && is_name_char(s[0]) {
        lemma_name_len_le(s.drop_first());
    }
}

/// `name_len` is the unique `k` bounding a name run that ends at the string's
/// end or at a non-name character.
pub proof fn lemma_name_len_run(s: Seq<char>, k: int)
    requires
        0 <= k <= s.len(),
        forall|m: int| 0 <= m < k ==> is_name_char(#[trigger] s[m]),
        k == s.len() || !is_name_char(s[k]),
    ensures
        name_len(s) == k,
    decreases k,
{
    if k > 0 {
        assert(is_name_char(s[0]));
        lemma_name_len_run(s.drop_first(), k - 1);
    }
}

/// The index of the first occurrence of `c` in `s`, if any.
pub open spec fn find_char(s: Seq<char>, c: char) -> Option<int>
    decreases s.len(),
{
    if s.len() == 0 {
        None
    } else if s[0] == c {
        Some(0)
    } else {
        match find_char(s.drop_first(), c) {
            Some(i) => Some(i + 1),
            None => None,
        }
    }
}

pub proof fn lemma_find_char(s: Seq<char>, c: char)
    ensures
        match find_char(s, c) {
            Some(i) => 0 <= i < s.len() && s[i] == c && forall|j: int|
                0 <= j < i ==> #[trigger] s[j] != c,
            None => forall|j: int| 0 <= j < s.len() ==> #[trigger] s[j] != c,
        },
    decreases s.len(),
{
    if s.len() > 0 && s[0] != c {
        lemma_find_char(s.drop_first(), c);
        assert(forall|j: int| 1 <= j < s.len() ==> #[trigger] s[j] == s.drop_first()[j - 1]);
    }
}

/// `find_char` finds exactly the position witnessed by a scan.
pub proof fn lemma_find_char_at(s: Seq<char>, c: char, i: int)
    requires
        0 <= i < s.len(),
        s[i] == c,
        forall|j: int| 0 <= j < i ==> #[trigger] s[j] != c,
    ensures
        find_char(s, c) == Some(i),
    decreases i,
{
    if i > 0 {
        lemma_find_char_at(s.drop_first(), c, i - 1);
    }
}

pub proof fn lemma_find_char_none(s: Seq<char>, c: char)
    requires
        forall|j: int| 0 <= j < s.len() ==> #[trigger] s[j] != c,
    ensures
        find_char(s, c) is None,
    decreases s.len(),
{
    if s.len() > 0 {
        lemma_find_char_none(s.drop_first(), c);
    }
}

/// The index of the first `:-` pair in `s`, if any.
pub open spec fn find_sep(s: Seq<char>) -> Option<int>
    decreases s.len(),
{
    if s.len() < 2 {
        None
    } else if s[0] == ':' && s[1] == '-' {
        Some(0)
    } else {
        match find_sep(s.drop_first()) {
            Some(i) => Some(i + 1),
            None => None,
        }
    }
}

pub proof fn lemma_find_sep(s: Seq<char>)
    ensures
        match find_sep(s) {
            Some(i) => 0 <= i && i + 1 < s.len() && s[i] == ':' && s[i + 1] == '-' && forall|j: int|
                0 <= j < i ==> !(#[trigger] s[j] == ':' && s[j + 1] == '-'),
            None => forall|j: int|
                0 <= j && j + 1 < s.len() ==> !(#[trigger] s[j] == ':' && s[j + 1] == '-'),
        },
    decreases s.len(),
{
    if s.len() >= 2 && !(s[0] == ':' && s[1] == '-') {
        lemma_find_sep(s.drop_first());
        assert(forall|j: int| 1 <= j < s.len() ==> #[trigger] s[j] == s.drop_first()[j - 1]);
    }
}

pub proof fn lemma_find_sep_at(s: Seq<char>, i: int)
    requires
        0 <= i,
        i + 1 < s.len(),
        s[i] == ':' && s[i + 1] == '-',
        forall|j: int| 0 <= j < i ==> !(#[trigger] s[j] == ':' && s[j + 1] == '-'),
    ensures
        find_sep(s) == Some(i),
    decreases i,
{
    if i > 0 {
        lemma_find_sep_at(s.drop_first(), i - 1);
    }
}

pub proof fn lemma_find_sep_none(s: Seq<char>)
    requires
        forall|j: int| 0 <= j && j + 1 < s.len() ==> !(#[trigger] s[j] == ':' && s[j + 1] == '-'),
    ensures
        find_sep(s) is None,
    decreases s.len(),
{
    if s.len() >= 2 {
        lemma_find_sep_none(s.drop_first());
    }
}

/// Whether `c` is an ASCII decimal digit.
pub open spec fn is_digit(c: char) -> bool {
    '0' <= c && c <= '9'
}

/// Whether `s` is entirely ASCII decimal digits.
pub open spec fn all_digits(s: Seq<char>) -> bool {
    forall|i: int| 0 <= i < s.len() ==> is_digit(#[trigger] s[i])
}

/// The decimal value of a digit string.
pub open spec fn digits_val(s: Seq<char>) -> int
    decreases s.len(),
{
    if s.len() == 0 {
        0
    } else {
        digits_val(s.drop_last()) * 10 + (s.last() as int - '0' as int)
    }
}

/// A longer digit string is worth at least as much as any of its prefixes.
pub proof fn lemma_digits_val_prefix(s: Seq<char>, k: int)
    requires
        all_digits(s),
        0 <= k <= s.len(),
    ensures
        digits_val(s.take(k)) <= digits_val(s),
        digits_val(s) >= 0,
    decreases s.len(),
{
    if s.len() == 0 {
        assert(s.take(k) =~= s);
    } else {
        assert(all_digits(s.drop_last()));
        lemma_digits_val_prefix(s.drop_last(), if k <= s.len() - 1 {
            k
        } else {
            s.len() - 1
        });
        assert(is_digit(s.last()));
        if k <= s.len() - 1 {
            assert(s.drop_last().take(k) =~= s.take(k));
        } else {
            assert(s.take(k) =~= s);
        }
    }
}

/// Whether `name` is a positional reference: a non-empty digit string whose
/// value fits the accepted range.
pub open spec fn is_index_name(name: Seq<char>) -> bool {
    name.len() > 0 && all_digits(name) && digits_val(name) <= 32767
}

/// The contents of the first environment binding of `key`, if any.
pub open spec fn env_val_of(env: Seq<(String, String)>, key: Seq<char>) -> Option<Seq<char>> {
    match assoc_lookup(env, key) {
        Some(v) => Some(v@),
        None => None,
    }
}

/// What a reference name stands for: the `N`-th step token for a numeric name
/// in range, else the named environment binding, if any.
pub open spec fn resolve_of(
    name: Seq<char>,
    args: Seq<Seq<char>>,
    env: Seq<(String, String)>,
) -> Option<Seq<char>> {
    if is_index_name(name) && 1 <= digits_val(name) < args.len() {
        Some(args[digits_val(name)])
    } else {
        env_val_of(env, name)
    }
}

/// Where the name of a brace reference closed at `b` ends: at the first `:-`
/// when one follows a non-empty name, else at the closing brace.
pub open spec fn brace_name_end(t: Seq<char>, b: int) -> int {
    match find_sep(t.take(b)) {
        Some(d) => if d != 2 {
            d
        } else {
            b
        },
        None => b,
    }
}

/// The default text of a brace reference closed at `b`, if it carries one.
pub open spec fn brace_default(t: Seq<char>, b: int) -> Option<Seq<char>> {
    match find_sep(t.take(b)) {
        Some(d) => if d != 2 {
            Some(t.subrange(d + 2, b))
        } else {
            None
        },
        None => None,
    }
}

/// The template `t` with every reference expanded against `args` and `env`.
pub open spec fn expand_of(t: Seq<char>, args: Seq<Seq<char>>, env: Seq<(String, String)>) -> Seq<
    char,
>
    decreases t.len(),
    via expand_of_decreases
{
    if t.len() == 0 {
        Seq::empty()
    } else if t[0] != '$' {
        seq![t[0]] + expand_of(t.drop_first(), args, env)
    } else if t.len() >= 2 && t[1] == '{' {
        match find_char(t, '}') {
            None => t.take(2) + expand_of(t.skip(2), args, env),
            Some(b) => {
                let name = t.subrange(2, brace_name_end(t, b));
                let tail = expand_of(t.skip(b + 1), args, env);
                match resolve_of(name, args, env) {
                    Some(v) => v + tail,
                    None => match brace_default(t, b) {
                        Some(d) => d + tail,
                        None => t.take(b + 1) + tail,
                    },
                }
            },
        }
    } else if t.len() >= 2 && is_name_char(t[1]) {
        let e = 1 + name_len(t.skip(1)) as int;
        let name = t.subrange(1, e);
        let tail = expand_of(t.skip(e), args, env);
        match resolve_of(name, args, env) {
            Some(v) => v + tail,
            None => t.take(e) + tail,
        }
    } else if t.len() >= 2 && t[1] == '$' {
        seq!['$'] + expand_of(t.skip(2), args, env)
    } else {
        seq!['$'] + expand_of(t.skip(1), args, env)
    }
}

#[via_fn]
proof fn expand_of_decreases(t: Seq<char>, args: Seq<Seq<char>>, env: Seq<(String, String)>) {
    if t.len() >= 2 && t[0] == '$' && t[1] == '{' {
        lemma_find_char(t, '}');
    }
    if t.len() >= 2 && t[0] == '$' && is_name_char(t[1]) {
        lemma_name_len_le(t.skip(1));
        assert(t.skip(1)[0] == t[1]);
        assert(name_len(t.skip(1)) >= 1);
    }
}

/// The first environment binding of `name`, if any.
fn env_get(env: &Vec<(String, String)>, name: &String) -> (r: Option<String>)
    ensures
        match r {
            Some(v) => env_val_of(env@, name@) == Some(v@),
            None => env_val_of(env@, name@) is None,
        },
{
    let n = env.len();
    let mut i: usize = 0;
    proof {
        assert(env@.skip(0) =~= env@);
    }
    while i < n
        invariant
            n == env@.len(),
            0 <= i <= n,
            assoc_lookup(env@, name@) == assoc_lookup(env@.skip(i as int), name@),
        decreases n - i,
    {
        proof {
            assert(env@.skip(i as int).drop_first() =~= env@.skip(i as int + 1));
        }
        if env[i].0.eq(name) {
            return Some(env[i].1.clone());
        }
        i = i + 1;
    }
    proof {
        assert(env@.skip(n as int) =~= Seq::<(String, String)>::empty());
    }
    None
}

/// The value of a purely numeric name, when it fits the accepted range.
fn parse_index(name: &str) -> (r: Option<usize>)
    ensures
        match r {
            Some(v) => is_index_name(name@) && digits_val(name@) == v,
            None => !is_index_name(name@),
        },
{
    let n = name.unicode_len();
    if n == 0 {
        return None;
    }
    let mut val: usize = 0;
    let mut i: usize = 0;
    proof {
        assert(name@.take(0) =~= Seq::<char>::empty());
    }
    while i < n
        invariant
            n == name@.len(),
            0 <= i <= n,
            all_digits(name@.take(i as int)),
            val == digits_val(name@.take(i as int)),
            0 <= val <= 32767,
        decreases n - i,
    {
        let c = name.get_char(i);
        if !('0' <= c && c <= '9') {
            assert(!all_digits(name@));
            return None;
        }
        let d = (c as usize) - ('0' as usize);
        let next = val * 10 + d;
        proof {
            assert(name@.take(i as int + 1).drop_last() =~= name@.take(i as int));
            assert(name@.take(i as int + 1).last() == name@[i as int]);
            assert(all_digits(name@.take(i as int + 1)));
        }
        if next > 32767 {
            proof {
                if all_digits(name@) {
                    lemma_digits_val_prefix(name@, i as int + 1);
                }
            }
            return None;
        }
        val = next;
        i = i + 1;
    }
    proof {
        assert(name@.take(n as int) =~= name@);
    }
    Some(val)
}

/// What the name of a reference stands for, matching [`resolve_of`].
fn resolve_ref(name: &str, args: &Vec<String>, env: &Vec<(String, String)>) -> (r: Option<String>)
    ensures
        match r {
            Some(v) => resolve_of(name@, args.deep_view(), env@) == Some(v@),
            None => resolve_of(name@, args.deep_view(), env@) is None,
        },
{
    proof {
        assert(args.deep_view().len() == args@.len());
    }
    match parse_index(name) {
        Some(ix) => {
            if 1 <= ix && ix < args.len() {
                let v = args[ix].clone();
                proof {
                    assert(args.deep_view()[ix as int] == args@[ix as int]@);
                }
                Some(v)
            } else {
                env_get(env, &name.to_owned())
            }
        },
        None => env_get(env, &name.to_owned()),
    }
}

/// The first occurrence of `c` in `s` at or after `start`, if any.
fn find_char_from(s: &str, start: usize, c: char) -> (r: Option<usize>)
    requires
        start <= s@.len(),
    ensures
        match r {
            Some(j) => start <= j < s@.len() && find_char(s@.skip(start as int), c) == Some(
                j - start,
            ),
            None => find_char(s@.skip(start as int), c) is None,
        },
{
    let n = s.unicode_len();
    let mut j = start;
    while j < n
        invariant
            n == s@.len(),
            start <= j <= n,
            forall|k: int| start <= k < j ==> #[trigger] s@[k] != c,
        decreases n - j,
    {
        if s.get_char(j) == c {
            proof {
                let suf = s@.skip(start as int);
                assert(forall|k: int| 0 <= k < suf.len() ==> suf[k] == s@[k + start]);
                lemma_find_char_at(suf, c, j - start);
            }
            return Some(j);
        }
        j = j + 1;
    }
    proof {
        let suf = s@.skip(start as int);
        assert(forall|k: int| 0 <= k < suf.len() ==> suf[k] == s@[k + start]);
        lemma_find_char_none(suf, c);
    }
    None
}

/// The first `:-` pair inside `s[start..end]`, if any.
fn find_sep_in(s: &str, start: usize, end: usize) -> (r: Option<usize>)
    requires
        start <= end <= s@.len(),
    ensures
        match r {
            Some(j) => start <= j && j + 1 < end && find_sep(
                s@.skip(start as int).take((end - start) as int),
            ) == Some(j - start),
            None => find_sep(s@.skip(start as int).take((end - start) as int)) is None,
        },
{
    if end == 0 {
        proof {
            let w = s@.skip(start as int).take((end - start) as int);
            lemma_find_sep_none(w);
        }
        return None;
    }
    let mut j = start;
    while j < end - 1
        invariant
            start <= j,
            1 <= end <= s@.len(),
            j <= end,
            forall|k: int|
                start <= k < j ==> !(#[trigger] s@[k] == ':' && s@[k + 1] == '-'),
        decreases end - j,
    {
        if s.get_char(j) == ':' && s.get_char(j + 1) == '-' {
            proof {
                let w = s@.skip(start as int).take((end - start) as int);
                assert(forall|k: int| 0 <= k < w.len() ==> w[k] == s@[k + start]);
                lemma_find_sep_at(w, j - start);
            }
            return Some(j);
        }
        j = j + 1;
    }
    proof {
        let w = s@.skip(start as int).take((end - start) as int);
        assert(forall|k: int| 0 <= k < w.len() ==> w[k] == s@[k + start]);
        lemma_find_sep_none(w);
    }
    None
}

/// `template` with every reference expanded against `args` and `env`,
/// matching [`expand_of`] on views.
#[verifier::rlimit(100)]
pub fn expand_template(template: &str, args: &Vec<String>, env: &Vec<(String, String)>) -> (r:
    String)
    ensures
        r@ == expand_of(template@, args.deep_view(), env@),
{
    let ghost t = template@;
    let ghost ga = args.deep_view();
    let ghost ge = env@;
    let n = template.unicode_len();
    let mut res = String::new();
    let mut i: usize = 0;
    proof {
        assert(t.skip(0) =~= t);
    }
    while i < n
        invariant
            t == template@,
            ga == args.deep_view(),
            ge == env@,
            n == t.len(),
            0 <= i <= n,
            expand_of(t, ga, ge) == res@ + expand_of(t.skip(i as int), ga, ge),
        decreases n - i,
    {
        let ghost suf = t.skip(i as int);
        let ghost res0 = res@;
        proof {
            assert(suf[0] == t[i as int]);
            assert(forall|k: int| 0 <= k < suf.len() ==> suf[k] == t[k + i]);
        }
        let c0 = template.get_char(i);
        if c0 != '$' {
            push_char(&mut res, c0);
            proof {
                assert(suf.drop_first() =~= t.skip(i as int + 1));
                assert(res@ =~= res0 + seq![c0]);
                assert(res@ + expand_of(t.skip(i as int + 1), ga, ge) =~= res0 + (seq![c0]
                    + expand_of(t.skip(i as int + 1), ga, ge)));
            }
            i = i + 1;
        } else if i + 1 < n && template.get_char(i + 1) == '{' {
            match find_char_from(template, i, '}') {
                None => {
                    push_char(&mut res, '$');
                    push_char(&mut res, '{');
                    proof {
                        assert(suf.take(2) =~= seq!['$', '{']);
                        assert(suf.skip(2) =~= t.skip(i as int + 2));
                        assert(res@ =~= res0 + suf.take(2));
                        assert(res@ + expand_of(t.skip(i as int + 2), ga, ge) =~= res0 + (suf.take(
                            2,
                        ) + expand_of(t.skip(i as int + 2), ga, ge)));
                    }
                    i = i + 2;
                },
                Some(b_abs) => {
                    let ghost b = b_abs - i;
                    let sep = find_sep_in(template, i, b_abs);
                    let name_end: usize = match sep {
                        Some(d_abs) => if d_abs - i != 2 {
                            d_abs
                        } else {
                            b_abs
                        },
                        None => b_abs,
                    };
                    proof {
                        lemma_find_char(suf, '}');
                        assert(suf[b] == '}');
                        assert(b >= 2);
                        lemma_find_sep(suf.take(b));
                        if sep is Some {
                            let d = sep->0 - i;
                            assert(suf.take(b)[d] == ':');
                            assert(d >= 2);
                        }
                        assert(brace_name_end(suf, b) == name_end - i);
                        assert(i + 2 <= name_end <= n);
                        assert(suf.subrange(2, name_end - i) =~= t.subrange(
                            i as int + 2,
                            name_end as int,
                        ));
                    }
                    let name = template.substring_char(i + 2, name_end).to_owned();
                    let resolved = resolve_ref(name.as_str(), args, env);
                    let ghost piece: Seq<char>;
                    match resolved {
                        Some(v) => {
                            res.append(v.as_str());
                            proof {
                                piece = v@;
                            }
                        },
                        None => {
                            match sep {
                                Some(d_abs) => {
                                    if d_abs - i != 2 {
                                        res.append(template.substring_char(d_abs + 2, b_abs));
                                        proof {
                                            piece = t.subrange(d_abs + 2, b_abs as int);
                                            assert(brace_default(suf, b) == Some(piece)) by {
                                                assert(suf.subrange(
                                                    d_abs - i + 2,
                                                    b,
                                                ) =~= t.subrange(d_abs + 2, b_abs as int));
                                            }
                                        }
                                    } else {
                                        res.append(template.substring_char(i, b_abs + 1));
                                        proof {
                                            piece = t.subrange(i as int, b_abs + 1);
                                            assert(suf.take(b + 1) =~= piece);
                                        }
                                    }
                                },
                                None => {
                                    res.append(template.substring_char(i, b_abs + 1));
                                    proof {
                                        piece = t.subrange(i as int, b_abs + 1);
                                        assert(suf.take(b + 1) =~= piece);
                                    }
                                },
                            }
                        },
                    }
                    proof {
                        assert(suf.skip(b + 1) =~= t.skip(b_abs + 1));
                        assert(expand_of(suf, ga, ge) == piece + expand_of(t.skip(b_abs + 1), ga, ge));
                        assert(res@ + expand_of(t.skip(b_abs + 1), ga, ge) =~= res0 + (piece
                            + expand_of(t.skip(b_abs + 1), ga, ge)));
                    }
                    i = b_abs + 1;
                },
            }
        } else if i + 1 < n && name_char(template.get_char(i + 1)) {
            let mut j = i + 1;
            while j < n && name_char(template.get_char(j))
                invariant
                    n == t.len(),
                    t == template@,
                    i + 1 <= j <= n,
                    forall|k: int| i + 1 <= k < j ==> is_name_char(#[trigger] t[k]),
                decreases n - j,
            {
                j = j + 1;
            }
            proof {
                let s1 = suf.skip(1);
                assert(s1 =~= t.skip(i as int + 1));
                assert(forall|k: int| 0 <= k < s1.len() ==> s1[k] == t[k + i + 1]);
                lemma_name_len_run(s1, j - i - 1);
                assert(suf.subrange(1, j - i) =~= t.subrange(i as int + 1, j as int));
                assert(suf.take(j - i) =~= t.subrange(i as int, j as int));
                assert(suf.skip(j - i) =~= t.skip(j as int));
            }
            let name = template.substring_char(i + 1, j).to_owned();
            let resolved = resolve_ref(name.as_str(), args, env);
            let ghost piece: Seq<char>;
            match resolved {
                Some(v) => {
                    res.append(v.as_str());
                    proof {
                        piece = v@;
                    }
                },
                None => {
                    res.append(template.substring_char(i, j));
                    proof {
                        piece = t.subrange(i as int, j as int);
                    }
                },
            }
            proof {
                assert(expand_of(suf, ga, ge) == piece + expand_of(t.skip(j as int), ga, ge));
                assert(res@ + expand_of(t.skip(j as int), ga, ge) =~= res0 + (piece + expand_of(
                    t.skip(j as int),
                    ga,
                    ge,
                )));
            }
            i = j;
        } else if i + 1 < n && template.get_char(i + 1) == '$' {
            push_char(&mut res, '$');
            proof {
                assert(suf.skip(2) =~= t.skip(i as int + 2));
                assert(res@ =~= res0 + seq!['$']);
                assert(res@ + expand_of(t.skip(i as int + 2), ga, ge) =~= res0 + (seq!['$']
                    + expand_of(t.skip(i as int + 2), ga, ge)));
            }
            i = i + 2;
        } else {
            push_char(&mut res, '$');
            proof {
                assert(suf.skip(1) =~= t.skip(i as int + 1));
                assert(res@ =~= res0 + seq!['$']);
                assert(res@ + expand_of(t.skip(i as int + 1), ga, ge) =~= res0 + (seq!['$']
                    + expand_of(t.skip(i as int + 1), ga, ge)));
            }
            i = i + 1;
        }
    }
    proof {
        assert(t.skip(n as int) =~= Seq::<char>::empty());
        assert(res@ + Seq::<char>::empty() =~= res@);
    }
    res
}

} // verus!
