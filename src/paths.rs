//! A platform-neutral model of filesystem paths.
//!
//! A path is a string. Both `/` and `\` separate its components; a leading verbatim
//! marker `\\?\` is ignored; empty and `.` components carry no meaning. Two paths name the
//! same place when they have the same root and the same components.
use vstd::prelude::*;
use crate::text::{chars_of, join, join_strings, string_from, views};

verus! {

pub open spec fn is_sep(c: char) -> bool {
    c == '/' || c == '\\'
}

/// The marker `\\?\` that starts a verbatim path.
pub open spec fn verbatim_prefix() -> Seq<char> {
    seq!['\\', '\\', '?', '\\']
}

pub open spec fn has_verbatim_prefix(p: Seq<char>) -> bool {
    p.len() >= 4 && p.subrange(0, 4) == verbatim_prefix()
}

/// `p` without its verbatim marker.
pub open spec fn strip_verbatim(p: Seq<char>) -> Seq<char> {
    if has_verbatim_prefix(p) {
        p.subrange(4, p.len() as int)
    } else {
        p
    }
}

/// A piece that counts as a component: not empty, not `.`, and free of separators.
pub open spec fn is_component(c: Seq<char>) -> bool {
    c.len() > 0 && c != seq!['.'] && forall|i: int| 0 <= i < c.len() ==> !is_sep(#[trigger] c[i])
}

pub open spec fn all_components(cs: Seq<Seq<char>>) -> bool {
    forall|i: int| 0 <= i < cs.len() ==> is_component(#[trigger] cs[i])
}

/// Ends the piece `cur`, keeping it if it is a component.
pub open spec fn flush(done: Seq<Seq<char>>, cur: Seq<char>) -> Seq<Seq<char>> {
    if cur.len() == 0 || cur == seq!['.'] {
        done
    } else {
        done.push(cur)
    }
}

/// Reads `s` from the left, having found the components `done` and the open piece `cur`.
pub open spec fn scan(done: Seq<Seq<char>>, cur: Seq<char>, s: Seq<char>) -> Seq<Seq<char>>
    decreases s.len(),
{
    if s.len() == 0 {
        flush(done, cur)
    } else if is_sep(s[0]) {
        scan(flush(done, cur), Seq::empty(), s.drop_first())
    } else {
        scan(done, cur.push(s[0]), s.drop_first())
    }
}

/// The components of path `p`, in order.
pub open spec fn components(p: Seq<char>) -> Seq<Seq<char>> {
    scan(Seq::empty(), Seq::empty(), strip_verbatim(p))
}

/// Whether `p` starts at the root of a filesystem (it starts with a separator).
pub open spec fn is_rooted(p: Seq<char>) -> bool {
    let s = strip_verbatim(p);
    s.len() > 0 && is_sep(s[0])
}

/// Whether `p` does not depend on a current directory: rooted, verbatim, or `X:` and a
/// separator.
pub open spec fn is_absolute(p: Seq<char>) -> bool {
    has_verbatim_prefix(p) || (p.len() > 0 && is_sep(p[0])) || (p.len() >= 3 && p[1] == ':'
        && is_sep(p[2]) && !is_sep(p[0]))
}

/// The normal form of `p`: its root, then its components joined with `sep`.
pub open spec fn normalized(p: Seq<char>, sep: char) -> Seq<char> {
    let body = join(components(p), seq![sep]);
    if is_rooted(p) {
        seq![sep] + body
    } else {
        body
    }
}

/// Whether `p` is `base` or lies below it.
pub open spec fn is_within(p: Seq<char>, base: Seq<char>) -> bool {
    is_rooted(p) == is_rooted(base) && components(base).is_prefix_of(components(p))
}

/// `rel` taken from `base`: `rel` itself when it is absolute.
pub open spec fn joined(base: Seq<char>, rel: Seq<char>, sep: char) -> Seq<char> {
    if is_absolute(rel) || base.len() == 0 {
        rel
    } else if is_sep(base.last()) {
        base + rel
    } else {
        base + seq![sep] + rel
    }
}

// ---------------------------------------------------------------- lemmas

/// What `scan` finds is appended to what it was handed.
pub proof fn lemma_scan_done(done: Seq<Seq<char>>, cur: Seq<char>, s: Seq<char>)
    ensures
        scan(done, cur, s) == done + scan(Seq::empty(), cur, s),
    decreases s.len(),
{
    if s.len() == 0 {
        assert(done.push(cur) =~= done + Seq::<Seq<char>>::empty().push(cur));
        assert(done =~= done + Seq::<Seq<char>>::empty());
    } else if is_sep(s[0]) {
        lemma_scan_done(flush(done, cur), Seq::empty(), s.drop_first());
        lemma_scan_done(flush(Seq::empty(), cur), Seq::empty(), s.drop_first());
        if cur.len() == 0 || cur == seq!['.'] {
            assert(done =~= done + Seq::<Seq<char>>::empty());
        } else {
            assert(done.push(cur) =~= done + Seq::<Seq<char>>::empty().push(cur));
        }
        assert(flush(done, cur) == done + flush(Seq::empty(), cur));
        assert(scan(done, cur, s) == flush(done, cur) + scan(
            Seq::empty(),
            Seq::empty(),
            s.drop_first(),
        ));
        assert((done + flush(Seq::empty(), cur)) + scan(Seq::empty(), Seq::empty(), s.drop_first())
            =~= done + (flush(Seq::empty(), cur) + scan(Seq::empty(), Seq::empty(), s.drop_first())));
    } else {
        lemma_scan_done(done, cur.push(s[0]), s.drop_first());
    }
}

/// Scanning across a separator splits the result there.
pub proof fn lemma_scan_split(done: Seq<Seq<char>>, cur: Seq<char>, a: Seq<char>, c: char, b: Seq<char>)
    requires
        is_sep(c),
    ensures
        scan(done, cur, a + seq![c] + b) == scan(done, cur, a) + scan(Seq::empty(), Seq::empty(), b),
    decreases a.len(),
{
    let s = a + seq![c] + b;
    if a.len() == 0 {
        assert(s.drop_first() =~= b);
        assert(s[0] == c);
        lemma_scan_done(flush(done, cur), Seq::empty(), b);
    } else {
        assert(s[0] == a[0]);
        assert(s.drop_first() =~= a.drop_first() + seq![c] + b);
        if is_sep(a[0]) {
            lemma_scan_split(flush(done, cur), Seq::empty(), a.drop_first(), c, b);
        } else {
            lemma_scan_split(done, cur.push(a[0]), a.drop_first(), c, b);
        }
    }
}

/// A stretch without separators only extends the open piece.
pub proof fn lemma_scan_plain(done: Seq<Seq<char>>, cur: Seq<char>, a: Seq<char>)
    requires
        forall|i: int| 0 <= i < a.len() ==> !is_sep(#[trigger] a[i]),
    ensures
        scan(done, cur, a) == flush(done, cur + a),
    decreases a.len(),
{
    if a.len() == 0 {
        assert(cur + a =~= cur);
    } else {
        assert(cur.push(a[0]) + a.drop_first() =~= cur + a);
        lemma_scan_plain(done, cur.push(a[0]), a.drop_first());
    }
}

/// Everything `scan` returns beyond `done` is a component.
pub proof fn lemma_scan_components(done: Seq<Seq<char>>, cur: Seq<char>, s: Seq<char>)
    requires
        all_components(done),
        forall|i: int| 0 <= i < cur.len() ==> !is_sep(#[trigger] cur[i]),
    ensures
        all_components(scan(done, cur, s)),
    decreases s.len(),
{
    if s.len() == 0 {
        assert(all_components(flush(done, cur)));
    } else if is_sep(s[0]) {
        assert(all_components(flush(done, cur)));
        lemma_scan_components(flush(done, cur), Seq::empty(), s.drop_first());
    } else {
        let next = cur.push(s[0]);
        assert forall|i: int| 0 <= i < next.len() implies !is_sep(#[trigger] next[i]) by {
            if i < cur.len() {
                assert(next[i] == cur[i]);
            }
        }
        lemma_scan_components(done, next, s.drop_first());
    }
}

pub proof fn lemma_components_are_components(p: Seq<char>)
    ensures
        all_components(components(p)),
{
    lemma_scan_components(Seq::empty(), Seq::empty(), strip_verbatim(p));
}

/// A single component reads back as itself.
pub proof fn lemma_scan_single(c: Seq<char>)
    requires
        is_component(c),
    ensures
        scan(Seq::empty(), Seq::empty(), c) == seq![c],
{
    lemma_scan_plain(Seq::empty(), Seq::empty(), c);
    assert(Seq::<char>::empty() + c =~= c);
    assert(Seq::<Seq<char>>::empty().push(c) =~= seq![c]);
}

/// Components joined with a separator read back as the same components.
pub proof fn lemma_scan_join(cs: Seq<Seq<char>>, sep: char)
    requires
        is_sep(sep),
        all_components(cs),
    ensures
        scan(Seq::empty(), Seq::empty(), join(cs, seq![sep])) == cs,
    decreases cs.len(),
{
    if cs.len() == 0 {
        assert(scan(Seq::empty(), Seq::empty(), Seq::<char>::empty()) == Seq::<Seq<char>>::empty());
        assert(cs =~= Seq::<Seq<char>>::empty());
    } else if cs.len() == 1 {
        assert(is_component(cs[0]));
        lemma_scan_single(cs[0]);
        assert(cs =~= seq![cs[0]]);
    } else {
        let init = cs.drop_last();
        assert(all_components(init)) by {
            assert forall|i: int| 0 <= i < init.len() implies is_component(#[trigger] init[i]) by {
                assert(init[i] == cs[i]);
            }
        }
        assert(is_component(cs[cs.len() - 1]));
        lemma_scan_join(init, sep);
        lemma_scan_split(Seq::empty(), Seq::empty(), join(init, seq![sep]), sep, cs.last());
        lemma_scan_single(cs.last());
        assert(init + seq![cs.last()] =~= cs);
    }
}

/// Joined components are empty only when there are none, and never start with a separator.
pub proof fn lemma_join_head(cs: Seq<Seq<char>>, sep: char)
    requires
        all_components(cs),
    ensures
        cs.len() > 0 ==> join(cs, seq![sep]).len() > 0,
        join(cs, seq![sep]).len() > 0 ==> !is_sep(join(cs, seq![sep])[0]),
    decreases cs.len(),
{
    if cs.len() == 1 {
        assert(is_component(cs[0]));
        assert(!is_sep(cs[0][0]));
    } else if cs.len() > 1 {
        let init = cs.drop_last();
        assert(all_components(init)) by {
            assert forall|i: int| 0 <= i < init.len() implies is_component(#[trigger] init[i]) by {
                assert(init[i] == cs[i]);
            }
        }
        lemma_join_head(init, sep);
        let j = join(init, seq![sep]);
        assert((j + seq![sep] + cs.last())[0] == j[0]);
    }
}

/// A normal form carries no verbatim marker.
pub proof fn lemma_normalized_plain(p: Seq<char>, sep: char)
    requires
        is_sep(sep),
    ensures
        strip_verbatim(normalized(p, sep)) == normalized(p, sep),
        is_rooted(normalized(p, sep)) == is_rooted(p),
        components(normalized(p, sep)) == components(p),
{
    let cs = components(p);
    lemma_components_are_components(p);
    lemma_join_head(cs, sep);
    let body = join(cs, seq![sep]);
    let n = normalized(p, sep);
    if is_rooted(p) {
        assert(n == seq![sep] + body);
        if n.len() >= 4 {
            assert(n[1] == body[0]);
            assert(n.subrange(0, 4)[1] == n[1]);
            assert(verbatim_prefix()[1] == '\\');
        }
        assert(strip_verbatim(n) == n);
        assert(n.drop_first() =~= body);
        assert(scan(Seq::empty(), Seq::empty(), n) == scan(Seq::empty(), Seq::empty(), body));
    } else {
        assert(n == body);
        if n.len() >= 4 {
            assert(n.subrange(0, 4)[0] == n[0]);
            assert(verbatim_prefix()[0] == '\\');
        }
        assert(strip_verbatim(n) == n);
    }
    lemma_scan_join(cs, sep);
}

/// Normalising a normal form changes nothing.
pub proof fn lemma_normalize_idempotent(p: Seq<char>, sep: char)
    requires
        is_sep(sep),
    ensures
        normalized(normalized(p, sep), sep) == normalized(p, sep),
{
    lemma_normalized_plain(p, sep);
}

/// Below a base in normal form, a path written as the base, a separator and more has
/// the base's root and the base's components followed by those of the rest.
pub proof fn lemma_components_below(base: Seq<char>, sep: char, rest: Seq<char>)
    requires
        is_sep(sep),
        base == normalized(base, sep),
        components(base).len() > 0,
        !has_verbatim_prefix(rest),
    ensures
        is_rooted(base + seq![sep] + rest) == is_rooted(base),
        components(base + seq![sep] + rest) == components(base) + components(rest),
{
    lemma_normalized_plain(base, sep);
    let cs = components(base);
    lemma_components_are_components(base);
    lemma_join_head(cs, sep);
    let j = join(cs, seq![sep]);
    let p = base + seq![sep] + rest;
    if is_rooted(base) {
        assert(base == seq![sep] + j);
        assert(p[1] == j[0]);
    } else {
        assert(base == j);
    }
    assert(p[0] == base[0]);
    if has_verbatim_prefix(p) {
        assert(p.subrange(0, 4)[0] == p[0]);
        assert(p.subrange(0, 4)[1] == p[1]);
        assert(verbatim_prefix()[0] == '\\');
        assert(verbatim_prefix()[1] == '\\');
    }
    assert(!has_verbatim_prefix(p));
    lemma_scan_split(Seq::empty(), Seq::empty(), base, sep, rest);
}

// ---------------------------------------------------------------- exec

/// Relies on `std::path::MAIN_SEPARATOR`: the separator of the platform the program
/// runs on, `/` or `\`.
#[verifier::external_body]
pub(crate) fn platform_separator() -> (c: char)
    ensures
        is_sep(c),
{
    std::path::MAIN_SEPARATOR
}

pub fn is_sep_char(c: char) -> (r: bool)
    ensures
        r == is_sep(c),
{
    c == '/' || c == '\\'
}

fn starts_verbatim(v: &Vec<char>) -> (r: bool)
    ensures
        r == has_verbatim_prefix(v@),
{
    if v.len() >= 4 && v[0] == '\\' && v[1] == '\\' && v[2] == '?' && v[3] == '\\' {
        assert(v@.subrange(0, 4) =~= verbatim_prefix());
        true
    } else {
        proof {
            if v@.len() >= 4 {
                assert(v@.subrange(0, 4)[0] == v@[0]);
                assert(v@.subrange(0, 4)[1] == v@[1]);
                assert(v@.subrange(0, 4)[2] == v@[2]);
                assert(v@.subrange(0, 4)[3] == v@[3]);
            }
        }
        false
    }
}

/// The components of `p`, with whether it is rooted.
pub fn split_path(p: &str) -> (r: (Vec<String>, bool))
    ensures
        views(r.0@) == components(p@),
        r.1 == is_rooted(p@),
{
    let v = chars_of(p);
    let start: usize = if starts_verbatim(&v) {
        4
    } else {
        0
    };
    let ghost s = strip_verbatim(v@);
    assert(s =~= v@.subrange(start as int, v@.len() as int));
    let rooted = start < v.len() && is_sep_char(v[start]);
    let mut done: Vec<String> = Vec::new();
    let mut cur: Vec<char> = Vec::new();
    let mut i = start;
    assert(views(done@) =~= Seq::<Seq<char>>::empty());
    assert(cur@ =~= Seq::<char>::empty());
    while i < v.len()
        invariant
            start <= i <= v@.len(),
            s == v@.subrange(start as int, v@.len() as int),
            scan(views(done@), cur@, v@.subrange(i as int, v@.len() as int)) == scan(
                Seq::empty(),
                Seq::empty(),
                s,
            ),
        decreases v@.len() - i,
    {
        let c = v[i];
        let ghost rest = v@.subrange(i as int, v@.len() as int);
        assert(rest.drop_first() =~= v@.subrange(i + 1, v@.len() as int));
        if is_sep_char(c) {
            if cur.len() > 0 && !(cur.len() == 1 && cur[0] == '.') {
                let piece = string_from(&cur, 0, cur.len());
                assert(cur@.subrange(0, cur@.len() as int) =~= cur@);
                let ghost before = views(done@);
                done.push(piece);
                assert(views(done@) =~= before.push(cur@));
            } else {
                assert(cur@.len() == 0 || cur@ =~= seq!['.']);
            }
            cur = Vec::new();
        } else {
            cur.push(c);
        }
        i += 1;
    }
    if cur.len() > 0 && !(cur.len() == 1 && cur[0] == '.') {
        let piece = string_from(&cur, 0, cur.len());
        assert(cur@.subrange(0, cur@.len() as int) =~= cur@);
        let ghost before = views(done@);
        done.push(piece);
        assert(views(done@) =~= before.push(cur@));
    } else {
        assert(cur@.len() == 0 || cur@ =~= seq!['.']);
    }
    (done, rooted)
}

/// Whether two lists of strings are equal.
pub fn same_strings(a: &Vec<String>, b: &Vec<String>) -> (r: bool)
    ensures
        r == (views(a@) == views(b@)),
{
    if a.len() != b.len() {
        assert(views(a@).len() != views(b@).len());
        return false;
    }
    let mut i: usize = 0;
    while i < a.len()
        invariant
            i <= a@.len() == b@.len(),
            forall|k: int| 0 <= k < i ==> a@[k]@ == b@[k]@,
        decreases a@.len() - i,
    {
        if a[i] != b[i] {
            assert(views(a@)[i as int] != views(b@)[i as int]);
            return false;
        }
        i += 1;
    }
    assert(views(a@) =~= views(b@));
    true
}

/// Whether `a` is a prefix of `b`.
pub fn strings_prefix(a: &Vec<String>, b: &Vec<String>) -> (r: bool)
    ensures
        r == views(a@).is_prefix_of(views(b@)),
{
    if a.len() > b.len() {
        return false;
    }
    let mut i: usize = 0;
    while i < a.len()
        invariant
            i <= a@.len() <= b@.len(),
            forall|k: int| 0 <= k < i ==> a@[k]@ == b@[k]@,
        decreases a@.len() - i,
    {
        if a[i] != b[i] {
            assert(views(a@)[i as int] != views(b@)[i as int]);
            return false;
        }
        i += 1;
    }
    assert(views(a@) =~= views(b@).subrange(0, a@.len() as int));
    true
}

/// The normal form of `p` written with the separator `sep`.
pub fn normalize_path_with(p: &str, sep: char) -> (r: String)
    ensures
        r@ == normalized(p@, sep),
{
    let (parts, rooted) = split_path(p);
    let mut sep_text = String::new();
    sep_text.push(sep);
    assert(sep_text@ =~= seq![sep]);
    let body = join_strings(&parts, sep_text.as_str());
    if rooted {
        let mut r = String::new();
        r.push(sep);
        r.append(body.as_str());
        assert(r@ =~= seq![sep] + body@);
        r
    } else {
        body
    }
}

/// The normal form of `p`, written with the separator of the platform: the path with
/// its verbatim marker, empty and `.` components dropped.
pub fn normalize_path(p: &str) -> (r: String)
    ensures
        exists|sep: char| is_sep(sep) && r@ == normalized(p@, sep),
{
    let sep = platform_separator();
    normalize_path_with(p, sep)
}

/// Whether `p` is `base` or lies below it.
pub fn path_is_within(p: &str, base: &str) -> (r: bool)
    ensures
        r == is_within(p@, base@),
{
    let (pc, pr) = split_path(p);
    let (bc, br) = split_path(base);
    pr == br && strings_prefix(&bc, &pc)
}

/// `p` without its verbatim marker.
pub fn strip_verbatim_prefix(p: &str) -> (r: String)
    ensures
        r@ == strip_verbatim(p@),
{
    let v = chars_of(p);
    if starts_verbatim(&v) {
        string_from(&v, 4, v.len())
    } else {
        assert(v@.subrange(0, v@.len() as int) =~= v@);
        string_from(&v, 0, v.len())
    }
}

pub fn is_absolute_path(p: &str) -> (r: bool)
    ensures
        r == is_absolute(p@),
{
    let v = chars_of(p);
    starts_verbatim(&v) || (v.len() > 0 && is_sep_char(v[0])) || (v.len() >= 3 && v[1] == ':'
        && is_sep_char(v[2]) && !is_sep_char(v[0]))
}

/// `rel` taken from `base`, joined with `sep` where a separator is missing.
pub fn join_path(base: &str, rel: &str, sep: char) -> (r: String)
    ensures
        r@ == joined(base@, rel@, sep),
{
    let b = chars_of(base);
    let mut r = String::new();
    if is_absolute_path(rel) || b.len() == 0 {
        r.append(rel);
        assert(r@ =~= rel@);
        return r;
    }
    r.append(base);
    if !is_sep_char(b[b.len() - 1]) {
        r.push(sep);
    }
    r.append(rel);
    assert(r@ =~= joined(base@, rel@, sep));
    r
}

} // verus!
