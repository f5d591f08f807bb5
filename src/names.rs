//! Display names of worktrees, and membership of the managed area under the base
//! directory.
use vstd::prelude::*;
use crate::inventory::{RecordModel, WorktreeInfo};
use crate::paths::{
    components, has_verbatim_prefix, is_component, is_rooted, is_sep, is_within,
    lemma_components_below, lemma_scan_single, lemma_scan_split, normalize_path_with, normalized,
    path_is_within, platform_separator, split_path, strip_verbatim,
};
use crate::text::{join, join_strings, views};

verus! {

/// Whether a record belongs to the managed area: the primary checkout always does, any
/// other checkout when it is the base directory or lies below it.
pub open spec fn managed(w: RecordModel, base: Seq<char>) -> bool {
    w.is_main || is_within(w.path, base)
}

/// The name shown for a record: `@` for the primary checkout; for a checkout below the
/// base directory, its path relative to the base, components joined with `sep`; for any
/// other, the last component of its path.
pub open spec fn display_name_of(w: RecordModel, base: Seq<char>, sep: char) -> Seq<char> {
    let cp = components(w.path);
    let cb = components(base);
    if w.is_main {
        seq!['@']
    } else if is_within(w.path, base) && cp.len() > cb.len() {
        join(cp.skip(cb.len() as int), seq![sep])
    } else if cp.len() > 0 {
        cp.last()
    } else {
        normalized(w.path, sep)
    }
}

/// The last component of the path of a record, if it has one.
pub open spec fn last_component(p: Seq<char>) -> Option<Seq<char>> {
    let cp = components(p);
    if cp.len() > 0 {
        Some(cp.last())
    } else {
        None
    }
}

pub fn is_managed(info: &WorktreeInfo, base_dir: &str) -> (r: bool)
    ensures
        r == managed(info@, base_dir@),
{
    if info.is_main {
        return true;
    }
    path_is_within(info.path.as_str(), base_dir)
}

/// The last component of `path`, if it has one.
pub fn file_name(path: &str) -> (r: Option<String>)
    ensures
        match r {
            Some(s) => last_component(path@) == Some(s@),
            None => last_component(path@) is None,
        },
{
    let (parts, _) = split_path(path);
    if parts.len() > 0 {
        Some(parts[parts.len() - 1].clone())
    } else {
        None
    }
}

/// The display name of `info`, relative components joined with `sep`.
pub fn display_name_with(info: &WorktreeInfo, base_dir: &str, sep: char) -> (r: String)
    ensures
        r@ == display_name_of(info@, base_dir@, sep),
{
    if info.is_main {
        let r = String::from_str("@");
        proof {
            reveal_strlit("@");
        }
        assert(r@ =~= seq!['@']);
        return r;
    }
    let (pc, pr) = split_path(info.path.as_str());
    let (bc, br) = split_path(base_dir);
    let within = path_is_within(info.path.as_str(), base_dir);
    if within && pc.len() > bc.len() {
        let mut rel: Vec<String> = Vec::new();
        let mut i = bc.len();
        assert(views(rel@) =~= views(pc@).subrange(bc@.len() as int, i as int));
        while i < pc.len()
            invariant
                bc@.len() <= i <= pc@.len(),
                views(rel@) == views(pc@).subrange(bc@.len() as int, i as int),
            decreases pc@.len() - i,
        {
            let ghost before = views(rel@);
            let piece = pc[i].clone();
            rel.push(piece);
            assert(views(rel@) =~= before.push(pc@[i as int]@));
            assert(views(rel@) =~= views(pc@).subrange(bc@.len() as int, i + 1));
            i += 1;
        }
        assert(views(rel@) =~= components(info.path@).skip(bc@.len() as int));
        let mut sep_text = String::new();
        sep_text.push(sep);
        assert(sep_text@ =~= seq![sep]);
        join_strings(&rel, sep_text.as_str())
    } else if pc.len() > 0 {
        assert(views(pc@).last() == pc@[pc@.len() - 1]@);
        pc[pc.len() - 1].clone()
    } else {
        normalize_path_with(info.path.as_str(), sep)
    }
}

/// The display name of `info`, relative components joined with the separator of the
/// platform.
pub fn display_name(info: &WorktreeInfo, base_dir: &str) -> (r: String)
    ensures
        exists|sep: char| is_sep(sep) && r@ == display_name_of(info@, base_dir@, sep),
{
    let sep = platform_separator();
    display_name_with(info, base_dir, sep)
}

// ---------------------------------------------------------------- properties

/// The primary checkout is shown as `@`, whatever the base directory.
pub proof fn lemma_primary_shown_as_at(w: RecordModel, base: Seq<char>, sep: char)
    requires
        w.is_main,
    ensures
        display_name_of(w, base, sep) == seq!['@'],
{
}

/// A checkout below a base directory in normal form is shown as its path relative to the
/// base, components joined with the separator.
pub proof fn lemma_display_name_below_base(w: RecordModel, base: Seq<char>, sep: char, rest: Seq<char>)
    requires
        is_sep(sep),
        !w.is_main,
        base == normalized(base, sep),
        components(base).len() > 0,
        !has_verbatim_prefix(rest),
        components(rest).len() > 0,
        w.path == base + seq![sep] + rest,
    ensures
        managed(w, base),
        display_name_of(w, base, sep) == join(components(rest), seq![sep]),
{
    lemma_components_below(base, sep, rest);
    let cb = components(base);
    let cp = components(w.path);
    assert(cp == cb + components(rest));
    assert(cb =~= cp.subrange(0, cb.len() as int));
    assert(cp.skip(cb.len() as int) =~= components(rest));
}

/// The components of `a`, a separator and `b`, two single components.
proof fn lemma_two_components(a: Seq<char>, sep: char, b: Seq<char>)
    requires
        is_sep(sep),
        is_component(a),
        is_component(b),
    ensures
        !has_verbatim_prefix(a + seq![sep] + b),
        components(a + seq![sep] + b) == seq![a, b],
{
    let p = a + seq![sep] + b;
    assert(p[0] == a[0]);
    if has_verbatim_prefix(p) {
        assert(p.subrange(0, 4)[0] == p[0]);
        assert(crate::paths::verbatim_prefix()[0] == '\\');
    }
    assert(strip_verbatim(p) == p);
    lemma_scan_split(Seq::empty(), Seq::empty(), a, sep, b);
    lemma_scan_single(a);
    lemma_scan_single(b);
    assert(seq![a] + seq![b] =~= seq![a, b]);
}

/// A checkout at `base`/`feature`/`auth` is shown as `feature`, the separator, `auth`.
pub proof fn lemma_feature_auth_display(w: RecordModel, base: Seq<char>, sep: char)
    requires
        is_sep(sep),
        !w.is_main,
        base == normalized(base, sep),
        components(base).len() > 0,
        w.path == base + seq![sep] + ("feature"@ + seq![sep] + "auth"@),
    ensures
        display_name_of(w, base, sep) == "feature"@ + seq![sep] + "auth"@,
{
    reveal_strlit("feature");
    reveal_strlit("auth");
    let f = "feature"@;
    let a = "auth"@;
    assert(is_component(f)) by {
        assert(f.len() == 7);
        assert(f != seq!['.']) by {
            assert(seq!['.'].len() == 1);
        }
    }
    assert(is_component(a)) by {
        assert(a.len() == 4);
        assert(a != seq!['.']) by {
            assert(seq!['.'].len() == 1);
        }
    }
    lemma_two_components(f, sep, a);
    let rest = f + seq![sep] + a;
    lemma_display_name_below_base(w, base, sep, rest);
    let cs = seq![f, a];
    assert(cs.drop_last() =~= seq![f]);
    assert(join(seq![f], seq![sep]) == f);
}

/// The base directory itself is managed.
pub proof fn lemma_base_is_managed(w: RecordModel, base: Seq<char>)
    requires
        w.path == base,
    ensures
        managed(w, base),
{
    assert(components(base).is_prefix_of(components(base))) by {
        assert(components(base) =~= components(base).subrange(0, components(base).len() as int));
    }
}

/// A checkout whose path does not start with the base directory's root and components
/// is not managed, unless it is the primary.
pub proof fn lemma_outside_not_managed(w: RecordModel, base: Seq<char>)
    requires
        !w.is_main,
        !(is_rooted(w.path) == is_rooted(base) && components(base).is_prefix_of(components(w.path))),
    ensures
        !managed(w, base),
{
}

/// A sibling of the base directory (another component under the same parent) is not
/// managed, unless it is the primary.
pub proof fn lemma_sibling_not_managed(
    w: RecordModel,
    parent: Seq<char>,
    sep: char,
    name: Seq<char>,
    other: Seq<char>,
)
    requires
        is_sep(sep),
        !w.is_main,
        parent == normalized(parent, sep),
        components(parent).len() > 0,
        is_component(name),
        is_component(other),
        name != other,
        w.path == parent + seq![sep] + other,
    ensures
        !managed(w, parent + seq![sep] + name),
{
    let base = parent + seq![sep] + name;
    assert(!has_verbatim_prefix(name)) by {
        if has_verbatim_prefix(name) {
            assert(name.subrange(0, 4)[0] == name[0]);
            assert(crate::paths::verbatim_prefix()[0] == '\\');
        }
    }
    assert(!has_verbatim_prefix(other)) by {
        if has_verbatim_prefix(other) {
            assert(other.subrange(0, 4)[0] == other[0]);
            assert(crate::paths::verbatim_prefix()[0] == '\\');
        }
    }
    lemma_components_below(parent, sep, name);
    lemma_components_below(parent, sep, other);
    lemma_scan_single(name);
    lemma_scan_single(other);
    assert(strip_verbatim(name) == name);
    assert(strip_verbatim(other) == other);
    let cp = components(parent);
    let n = cp.len();
    assert(components(base)[n as int] == name);
    assert(components(w.path)[n as int] == other);
    if components(base).is_prefix_of(components(w.path)) {
        assert(components(w.path).subrange(0, components(base).len() as int)[n as int]
            == components(w.path)[n as int]);
    }
}

} // verus!
