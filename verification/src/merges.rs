//! What merging adapters comes to: which tensors of a file make the delta of a module, which modules
//! take a delta, and in which order.

use vstd::prelude::*;
use crate::adapters::{
    factor_fault, file_fault, first_fault, first_file_fault, shape_at,
    all_left_out, all_taken, factor_endings, factor_from, factor_of, factor_path, factor_paths,
    file_order, fold_views, groups_of, is_factor, is_merge, last_factor, law_factor_paths,
    law_file_order, left_out, module_key, offers, taken, AdapterFile, AdapterKind, Delta, Fold,
    KeyLayout, MoeExpert, Role, Target, WanLoraReport,
};
use crate::model::{is_applied_dual, AppliedDual};
use crate::text::{has_suffix, views, without_suffix};

verus! {

/// Whether a key is a module's path, as files spell it, with an ending.
pub open spec fn spells(layout: KeyLayout, key: Seq<char>, path: Seq<char>, ending: Seq<char>) -> bool {
    exists|stem: Seq<char>|
        key == #[trigger] (stem + ending) && module_key(layout, stem) == path
}

/// Whether a key names the factor of a module that maps down to the rank.
pub open spec fn names_down(layout: KeyLayout, key: Seq<char>, path: Seq<char>) -> bool {
    spells(layout, key, path, ".lora_A.weight"@) || spells(layout, key, path, ".lora_down.weight"@)
}

/// Whether a key names the factor of a module that maps up from the rank.
pub open spec fn names_up(layout: KeyLayout, key: Seq<char>, path: Seq<char>) -> bool {
    spells(layout, key, path, ".lora_B.weight"@) || spells(layout, key, path, ".lora_up.weight"@)
}

/// Whether a key names the number that the delta of a module is scaled by.
pub open spec fn names_alpha(layout: KeyLayout, key: Seq<char>, path: Seq<char>) -> bool {
    spells(layout, key, path, ".alpha"@)
}

/// A text with an ending has the ending, and is what stands before it without.
proof fn lemma_ending(stem: Seq<char>, ending: Seq<char>)
    ensures
        has_suffix(stem + ending, ending),
        without_suffix(stem + ending, ending) == stem,
{
    let s = stem + ending;
    assert(s.subrange(s.len() - ending.len(), s.len() as int) =~= ending);
    assert(s.subrange(0, s.len() - ending.len()) =~= stem);
}

/// A text that has an ending is what stands before it, followed by it.
proof fn lemma_has_ending(key: Seq<char>, ending: Seq<char>)
    requires
        has_suffix(key, ending),
    ensures
        key == without_suffix(key, ending) + ending,
{
    assert(key =~= without_suffix(key, ending) + key.subrange(
        key.len() - ending.len(),
        key.len() as int,
    ));
}

/// Two endings that differ in a letter, counted from the end, do not both end a text.
proof fn lemma_other_ending(stem: Seq<char>, ending: Seq<char>, other: Seq<char>, back: int)
    requires
        0 < back <= ending.len(),
        back <= other.len(),
        ending[ending.len() - back] != other[other.len() - back],
    ensures
        !has_suffix(stem + ending, other),
{
    let s = stem + ending;
    if has_suffix(s, other) {
        assert(s.subrange(s.len() - other.len(), s.len() as int)[other.len() - back]
            == other[other.len() - back]);
        assert(s[s.len() - back] == ending[ending.len() - back]);
    }
}

/// The five endings that a tensor of a low-rank file has, each with what the tensor is: whatever stands
/// in front of the ending is the module.
pub proof fn law_factor_endings(stem: Seq<char>)
    ensures
        factor_of(stem + ".lora_A.weight"@) == Some((stem, Role::Down)),
        factor_of(stem + ".lora_down.weight"@) == Some((stem, Role::Down)),
        factor_of(stem + ".lora_B.weight"@) == Some((stem, Role::Up)),
        factor_of(stem + ".lora_up.weight"@) == Some((stem, Role::Up)),
        factor_of(stem + ".alpha"@) == Some((stem, Role::Alpha)),
{
    reveal_with_fuel(factor_from, 6);
    reveal_strlit(".lora_A.weight");
    reveal_strlit(".lora_B.weight");
    reveal_strlit(".lora_down.weight");
    reveal_strlit(".lora_up.weight");
    reveal_strlit(".alpha");
    let (a, b) = (".lora_A.weight"@, ".lora_B.weight"@);
    let (d, u, l) = (".lora_down.weight"@, ".lora_up.weight"@, ".alpha"@);
    let e = factor_endings();
    assert(e[0] == (a, Role::Down) && e[1] == (b, Role::Up) && e[2] == (d, Role::Down));
    assert(e[3] == (u, Role::Up) && e[4] == (l, Role::Alpha));
    lemma_ending(stem, a);
    lemma_ending(stem, b);
    lemma_ending(stem, d);
    lemma_ending(stem, u);
    lemma_ending(stem, l);
    lemma_other_ending(stem, b, a, 8);
    lemma_other_ending(stem, d, a, 8);
    lemma_other_ending(stem, d, b, 8);
    lemma_other_ending(stem, u, a, 8);
    lemma_other_ending(stem, u, b, 8);
    lemma_other_ending(stem, u, d, 8);
    lemma_other_ending(stem, l, a, 1);
    lemma_other_ending(stem, l, b, 1);
    lemma_other_ending(stem, l, d, 1);
    lemma_other_ending(stem, l, u, 1);
}

/// A tensor that is a factor has one of the five endings.
proof fn lemma_factor_has_ending(key: Seq<char>)
    ensures
        match factor_of(key) {
            Some((stem, Role::Down)) => key == stem + ".lora_A.weight"@ || key == stem
                + ".lora_down.weight"@,
            Some((stem, Role::Up)) => key == stem + ".lora_B.weight"@ || key == stem
                + ".lora_up.weight"@,
            Some((stem, Role::Alpha)) => key == stem + ".alpha"@,
            None => true,
        },
{
    reveal_with_fuel(factor_from, 6);
    let e = factor_endings();
    assert(e[0] == (".lora_A.weight"@, Role::Down) && e[1] == (".lora_B.weight"@, Role::Up));
    assert(e[2] == (".lora_down.weight"@, Role::Down) && e[3] == (".lora_up.weight"@, Role::Up));
    assert(e[4] == (".alpha"@, Role::Alpha));
    if has_suffix(key, e[0].0) {
        lemma_has_ending(key, e[0].0);
    } else if has_suffix(key, e[1].0) {
        lemma_has_ending(key, e[1].0);
    } else if has_suffix(key, e[2].0) {
        lemma_has_ending(key, e[2].0);
    } else if has_suffix(key, e[3].0) {
        lemma_has_ending(key, e[3].0);
    } else if has_suffix(key, e[4].0) {
        lemma_has_ending(key, e[4].0);
    }
}

/// A key is the tensor of a module in a role where it spells the module with an ending of that role.
proof fn lemma_named(layout: KeyLayout, key: Seq<char>, path: Seq<char>)
    ensures
        is_factor(layout, key, path, Role::Down) == names_down(layout, key, path),
        is_factor(layout, key, path, Role::Up) == names_up(layout, key, path),
        is_factor(layout, key, path, Role::Alpha) == names_alpha(layout, key, path),
{
    lemma_factor_has_ending(key);
    lemma_spelt(layout, key, path, ".lora_A.weight"@, Role::Down);
    lemma_spelt(layout, key, path, ".lora_down.weight"@, Role::Down);
    lemma_spelt(layout, key, path, ".lora_B.weight"@, Role::Up);
    lemma_spelt(layout, key, path, ".lora_up.weight"@, Role::Up);
    lemma_spelt(layout, key, path, ".alpha"@, Role::Alpha);
    if let Some((stem, role)) = factor_of(key) {
        if module_key(layout, stem) == path {
            match role {
                Role::Down => {
                    if key == stem + ".lora_A.weight"@ {
                        assert(spells(layout, key, path, ".lora_A.weight"@));
                    } else {
                        assert(spells(layout, key, path, ".lora_down.weight"@));
                    }
                },
                Role::Up => {
                    if key == stem + ".lora_B.weight"@ {
                        assert(spells(layout, key, path, ".lora_B.weight"@));
                    } else {
                        assert(spells(layout, key, path, ".lora_up.weight"@));
                    }
                },
                Role::Alpha => {
                    assert(spells(layout, key, path, ".alpha"@));
                },
            }
        }
    }
}

/// A key that spells a module with one of the five endings is the tensor of that module in the role of
/// the ending, and in no other.
proof fn lemma_spelt(
    layout: KeyLayout,
    key: Seq<char>,
    path: Seq<char>,
    ending: Seq<char>,
    role: Role,
)
    requires
        (ending == ".lora_A.weight"@ || ending == ".lora_down.weight"@) && role == Role::Down || (
        ending == ".lora_B.weight"@ || ending == ".lora_up.weight"@) && role == Role::Up || ending
            == ".alpha"@ && role == Role::Alpha,
    ensures
        spells(layout, key, path, ending) ==> is_factor(layout, key, path, role) && forall|r: Role|
            #[trigger] is_factor(layout, key, path, r) ==> r == role,
{
    if spells(layout, key, path, ending) {
        let stem = choose|stem: Seq<char>|
            key == #[trigger] (stem + ending) && module_key(layout, stem) == path;
        law_factor_endings(stem);
    }
}

/// The last tensor of a module in a role: it is one, none behind it is, and without it there is none.
proof fn lemma_last_factor(layout: KeyLayout, keys: Seq<Seq<char>>, path: Seq<char>, role: Role)
    requires
        keys.len() <= usize::MAX,
    ensures
        match last_factor(layout, keys, path, role) {
            Some(k) => k < keys.len() && is_factor(layout, keys[k as int], path, role) && forall|
                m: int,
            |
                k < m < keys.len() ==> !is_factor(layout, #[trigger] keys[m], path, role),
            None => forall|m: int|
                0 <= m < keys.len() ==> !is_factor(layout, #[trigger] keys[m], path, role),
        },
    decreases keys.len(),
{
    if keys.len() > 0 && !is_factor(layout, keys.last(), path, role) {
        let head = keys.drop_last();
        lemma_last_factor(layout, head, path, role);
        assert forall|m: int|
            0 <= m < keys.len() && (last_factor(layout, head, path, role) matches Some(k) ==> k
                < m) implies !is_factor(layout, #[trigger] keys[m], path, role) by {
            if m < head.len() {
                assert(head[m] == keys[m]);
            }
        }
    }
}

/// A module that is offered with a delta and that the target has takes that delta.
proof fn lemma_taken_has(
    target: Target,
    file: usize,
    offered: Seq<(Seq<char>, Option<Delta>)>,
    k: int,
)
    requires
        0 <= k < offered.len(),
        offered[k].1 is Some,
        target.has_module(offered[k].0),
    ensures
        taken(target, file, offered).contains((file, offered[k].0, offered[k].1->Some_0)),
    decreases offered.len(),
{
    let r = taken(target, file, offered);
    let head = taken(target, file, offered.drop_last());
    let want = (file, offered[k].0, offered[k].1->Some_0);
    if k == offered.len() - 1 {
        assert(r[r.len() - 1] == want);
    } else {
        assert(offered.drop_last()[k] == offered[k]);
        lemma_taken_has(target, file, offered.drop_last(), k);
        let j = choose|j: int| 0 <= j < head.len() && head[j] == want;
        assert(r[j] == want);
    }
}

/// A delta that is taken was offered, for a module that the target has.
proof fn lemma_taken_from(
    target: Target,
    file: usize,
    offered: Seq<(Seq<char>, Option<Delta>)>,
    j: int,
)
    requires
        0 <= j < taken(target, file, offered).len(),
    ensures
        ({
            let t = taken(target, file, offered)[j];
            &&& t.0 == file
            &&& target.has_module(t.1)
            &&& exists|k: int|
                0 <= k < offered.len() && #[trigger] offered[k] == (t.1, Some(t.2))
        }),
    decreases offered.len(),
{
    let r = taken(target, file, offered);
    let head = taken(target, file, offered.drop_last());
    if j < head.len() {
        assert(r[j] == head[j]);
        lemma_taken_from(target, file, offered.drop_last(), j);
        let k = choose|k: int|
            0 <= k < offered.drop_last().len() && #[trigger] offered.drop_last()[k] == (
                head[j].1,
                Some(head[j].2),
            );
        assert(offered[k] == (r[j].1, Some(r[j].2)));
    } else {
        let k = offered.len() - 1;
        assert(offered[k] == (r[j].1, Some(r[j].2)));
    }
}

/// A module that is offered without a delta, or that the target lacks, is left out.
proof fn lemma_left_out_has(target: Target, offered: Seq<(Seq<char>, Option<Delta>)>, k: int)
    requires
        0 <= k < offered.len(),
        offered[k].1 is None || !target.has_module(offered[k].0),
    ensures
        left_out(target, offered).contains(offered[k].0),
    decreases offered.len(),
{
    let r = left_out(target, offered);
    let head = left_out(target, offered.drop_last());
    if k == offered.len() - 1 {
        assert(r[r.len() - 1] == offered[k].0);
    } else {
        assert(offered.drop_last()[k] == offered[k]);
        lemma_left_out_has(target, offered.drop_last(), k);
        let j = choose|j: int| 0 <= j < head.len() && head[j] == offered[k].0;
        assert(r[j] == offered[k].0);
    }
}

/// What a file in the order gives is among what all give, and so is what it leaves out.
proof fn lemma_all_has(
    target: Target,
    files: Seq<AdapterFile>,
    layout: KeyLayout,
    order: Seq<usize>,
    o: int,
)
    requires
        0 <= o < order.len(),
    ensures
        forall|t: (usize, Seq<char>, Delta)|
            taken(target, order[o], offers(layout, files[order[o] as int])).contains(t)
                ==> #[trigger] all_taken(target, files, layout, order).contains(t),
        forall|p: Seq<char>|
            left_out(target, offers(layout, files[order[o] as int])).contains(p)
                ==> #[trigger] all_left_out(target, files, layout, order).contains(p),
    decreases order.len(),
{
    let r = all_taken(target, files, layout, order);
    let s = all_left_out(target, files, layout, order);
    let head = all_taken(target, files, layout, order.drop_last());
    let rest = all_left_out(target, files, layout, order.drop_last());
    let own = taken(target, order.last(), offers(layout, files[order.last() as int]));
    let lost = left_out(target, offers(layout, files[order.last() as int]));
    assert(r == head + own);
    assert(s == rest + lost);
    if o < order.len() - 1 {
        lemma_all_has(target, files, layout, order.drop_last(), o);
        assert(order.drop_last()[o] == order[o]);
        assert forall|t: (usize, Seq<char>, Delta)|
            taken(target, order[o], offers(layout, files[order[o] as int])).contains(
                t,
            ) implies #[trigger] r.contains(t) by {
            assert(head.contains(t));
            let j = choose|j: int| 0 <= j < head.len() && head[j] == t;
            assert(r[j] == t);
        }
        assert forall|p: Seq<char>|
            left_out(target, offers(layout, files[order[o] as int])).contains(
                p,
            ) implies #[trigger] s.contains(p) by {
            assert(rest.contains(p));
            let j = choose|j: int| 0 <= j < rest.len() && rest[j] == p;
            assert(s[j] == p);
        }
    } else {
        assert forall|t: (usize, Seq<char>, Delta)| own.contains(t) implies #[trigger] r.contains(
            t,
        ) by {
            let j = choose|j: int| 0 <= j < own.len() && own[j] == t;
            assert(r[head.len() + j] == t);
        }
        assert forall|p: Seq<char>| lost.contains(p) implies #[trigger] s.contains(p) by {
            let j = choose|j: int| 0 <= j < lost.len() && lost[j] == p;
            assert(s[rest.len() + j] == p);
        }
    }
}

/// What all files give comes from a file in the order.
proof fn lemma_all_from(
    target: Target,
    files: Seq<AdapterFile>,
    layout: KeyLayout,
    order: Seq<usize>,
    j: int,
) -> (r: (int, int))
    requires
        0 <= j < all_taken(target, files, layout, order).len(),
    ensures
        0 <= r.0 < order.len(),
        0 <= r.1 < taken(target, order[r.0], offers(layout, files[order[r.0] as int])).len(),
        all_taken(target, files, layout, order)[j] == taken(
            target,
            order[r.0],
            offers(layout, files[order[r.0] as int]),
        )[r.1],
    decreases order.len(),
{
    let all = all_taken(target, files, layout, order);
    let head = all_taken(target, files, layout, order.drop_last());
    if j < head.len() {
        assert(all[j] == head[j]);
        let r = lemma_all_from(target, files, layout, order.drop_last(), j);
        assert(order.drop_last()[r.0] == order[r.0]);
        r
    } else {
        (order.len() - 1, j - head.len())
    }
}

/// A file of low-rank factors: it is not declared or stamped as a Kronecker file, and has keys of neither
/// other kind.
pub open spec fn is_low_rank(file: AdapterFile) -> bool {
    file.kind == AdapterKind::Lora && !file.lokr_stamp && !file.lokr_keys && !file.loha_keys
}

/// Whether a file is for an expert: for both, or for this one.
pub open spec fn is_for(file: AdapterFile, expert: MoeExpert) -> bool {
    match file.moe_expert {
        Some(e) => e == expert,
        None => true,
    }
}

/// Whether position `k` is the last among the keys that `named` holds of; `None` where it holds of none.
pub open spec fn is_last(named: spec_fn(int) -> bool, count: int, k: Option<usize>) -> bool {
    match k {
        Some(k) => k < count && named(k as int) && forall|m: int|
            k < m < count ==> !#[trigger] named(m),
        None => forall|m: int| 0 <= m < count ==> !#[trigger] named(m),
    }
}

/// Whether the factors of a low-rank file for a module are the tensors at these positions: the last that
/// names the factor down, the last that names the factor up, and the last that names the scaling number,
/// where one does.
pub open spec fn are_factors(
    layout: KeyLayout,
    keys: Seq<String>,
    path: Seq<char>,
    down: Option<usize>,
    up: Option<usize>,
    alpha: Option<usize>,
) -> bool {
    let n = keys.len() as int;
    &&& is_last(|k: int| names_down(layout, keys[k]@, path), n, down)
    &&& is_last(|k: int| names_up(layout, keys[k]@, path), n, up)
    &&& is_last(|k: int| names_alpha(layout, keys[k]@, path), n, alpha)
}

/// Only one position is the last.
proof fn lemma_one_last(named: spec_fn(int) -> bool, count: int, a: Option<usize>, b: Option<usize>)
    requires
        is_last(named, count, a),
        is_last(named, count, b),
    ensures
        a == b,
{
    match (a, b) {
        (Some(x), Some(y)) => {
            if x < y {
                assert(named(y as int));
            }
            if y < x {
                assert(named(x as int));
            }
        },
        (Some(x), None) => {
            assert(named(x as int));
        },
        (None, Some(y)) => {
            assert(named(y as int));
        },
        (None, None) => {},
    }
}

/// The tensors that a file's group of a module holds are the factors of the module.
proof fn lemma_group_factors(layout: KeyLayout, keys: Seq<String>, path: Seq<char>)
    requires
        keys.len() <= usize::MAX,
    ensures
        are_factors(
            layout,
            keys,
            path,
            last_factor(layout, views(keys), path, Role::Down),
            last_factor(layout, views(keys), path, Role::Up),
            last_factor(layout, views(keys), path, Role::Alpha),
        ),
{
    let kv = views(keys);
    lemma_last_factor(layout, kv, path, Role::Down);
    lemma_last_factor(layout, kv, path, Role::Up);
    lemma_last_factor(layout, kv, path, Role::Alpha);
    assert forall|k: int| 0 <= k < keys.len() implies #[trigger] kv[k] == keys[k]@ && is_factor(
        layout,
        kv[k],
        path,
        Role::Down,
    ) == names_down(layout, keys[k]@, path) && is_factor(layout, kv[k], path, Role::Up) == names_up(
        layout,
        keys[k]@,
        path,
    ) && is_factor(layout, kv[k], path, Role::Alpha) == names_alpha(layout, keys[k]@, path) by {
        lemma_named(layout, keys[k]@, path);
    }
    let n = keys.len() as int;
    let d = |k: int| names_down(layout, keys[k]@, path);
    let u = |k: int| names_up(layout, keys[k]@, path);
    let a = |k: int| names_alpha(layout, keys[k]@, path);
    assert forall|m: int| 0 <= m < n implies #[trigger] d(m) == is_factor(
        layout,
        kv[m],
        path,
        Role::Down,
    ) by {}
    assert forall|m: int| 0 <= m < n implies #[trigger] u(m) == is_factor(
        layout,
        kv[m],
        path,
        Role::Up,
    ) by {}
    assert forall|m: int| 0 <= m < n implies #[trigger] a(m) == is_factor(
        layout,
        kv[m],
        path,
        Role::Alpha,
    ) by {}
    assert(is_last(d, n, last_factor(layout, kv, path, Role::Down)));
    assert(is_last(u, n, last_factor(layout, kv, path, Role::Up)));
    assert(is_last(a, n, last_factor(layout, kv, path, Role::Alpha)));
}

/// A module that a low-rank file has a factor for is offered, with its delta where both factors are there.
proof fn lemma_offered(layout: KeyLayout, file: AdapterFile, path: Seq<char>, k: int) -> (g: int)
    requires
        is_low_rank(file),
        0 <= k < file.keys@.len(),
        names_down(layout, file.keys@[k]@, path) || names_up(layout, file.keys@[k]@, path)
            || names_alpha(layout, file.keys@[k]@, path),
    ensures
        0 <= g < offers(layout, file).len(),
        offers(layout, file)[g].0 == path,
        ({
            let kv = views(file.keys@);
            offers(layout, file)[g].1 == match (
                last_factor(layout, kv, path, Role::Down),
                last_factor(layout, kv, path, Role::Up),
            ) {
                (Some(down), Some(up)) => Some(
                    Delta::Lora { down, up, alpha: last_factor(layout, kv, path, Role::Alpha) },
                ),
                _ => None,
            }
        }),
{
    let kv = views(file.keys@);
    lemma_named(layout, file.keys@[k]@, path);
    law_factor_paths(layout, kv);
    assert(kv[k] == file.keys@[k]@);
    assert(factor_path(layout, kv[k]) == Some(path));
    let paths = factor_paths(layout, kv);
    assert(paths.contains(path));
    let g = choose|g: int| 0 <= g < paths.len() && paths[g] == path;
    assert(groups_of(layout, kv)[g].0 == path);
    assert(offers(layout, file)[g].0 == path);
    g
}

/// A file that is for the expert takes part in the merge.
proof fn lemma_in_order(files: Seq<AdapterFile>, expert: MoeExpert, f: int) -> (o: int)
    requires
        files.len() <= usize::MAX,
        0 <= f < files.len(),
        is_for(files[f], expert),
    ensures
        0 <= o < file_order(files, expert).len(),
        file_order(files, expert)[o] == f,
{
    law_file_order(files, expert);
    let order = file_order(files, expert);
    assert(files[f].applies_to(expert));
    assert(order.contains(f as usize));
    choose|o: int| 0 <= o < order.len() && order[o] == f as usize
}

/// A module of the target that a low-rank file has both factors for takes a delta of the file: the
/// product of the two factors, scaled by the file's own number for the module wherever the file has one.
pub proof fn law_low_rank_module_is_merged(
    target: Target,
    files: Seq<AdapterFile>,
    layout: KeyLayout,
    expert: MoeExpert,
    folds: Seq<Fold>,
    report: WanLoraReport,
    f: int,
    path: Seq<char>,
    down: usize,
    up: usize,
    alpha: Option<usize>,
)
    requires
        files.len() <= usize::MAX,
        is_merge(target, files, layout, expert, folds, report),
        0 <= f < files.len(),
        is_for(files[f], expert),
        is_low_rank(files[f]),
        target.has_module(path),
        are_factors(layout, files[f].keys@, path, Some(down), Some(up), alpha),
    ensures
        exists|j: int|
            0 <= j < folds.len() && (#[trigger] folds[j]).file == f && folds[j].path@ == path
                && folds[j].delta == (Delta::Lora { down, up, alpha }),
{
    let file = files[f];
    let keys = file.keys@;
    assert(file.keys.len() == keys.len());
    lemma_group_factors(layout, keys, path);
    let kv = views(keys);
    let n = keys.len() as int;
    let nd = |k: int| names_down(layout, keys[k]@, path);
    let nu = |k: int| names_up(layout, keys[k]@, path);
    let na = |k: int| names_alpha(layout, keys[k]@, path);
    lemma_one_last(nd, n, Some(down), last_factor(layout, kv, path, Role::Down));
    lemma_one_last(nu, n, Some(up), last_factor(layout, kv, path, Role::Up));
    lemma_one_last(na, n, alpha, last_factor(layout, kv, path, Role::Alpha));
    assert(nd(down as int));
    let g = lemma_offered(layout, file, path, down as int);
    let o = lemma_in_order(files, expert, f);
    let order = file_order(files, expert);
    let delta = Delta::Lora { down, up, alpha };
    lemma_taken_has(target, order[o], offers(layout, file), g);
    lemma_all_has(target, files, layout, order, o);
    let all = all_taken(target, files, layout, order);
    assert(all.contains((f as usize, path, delta)));
    let j = choose|j: int| 0 <= j < all.len() && all[j] == (f as usize, path, delta);
    assert(fold_views(folds)[j] == (folds[j].file, folds[j].path@, folds[j].delta));
}

/// A module that a low-rank file has a tensor for, and that the target lacks or that lacks a factor, is
/// reported.
pub proof fn law_unmet_module_is_reported(
    target: Target,
    files: Seq<AdapterFile>,
    layout: KeyLayout,
    expert: MoeExpert,
    folds: Seq<Fold>,
    report: WanLoraReport,
    f: int,
    path: Seq<char>,
    down: Option<usize>,
    up: Option<usize>,
    alpha: Option<usize>,
)
    requires
        files.len() <= usize::MAX,
        is_merge(target, files, layout, expert, folds, report),
        0 <= f < files.len(),
        is_for(files[f], expert),
        is_low_rank(files[f]),
        are_factors(layout, files[f].keys@, path, down, up, alpha),
        down is Some || up is Some || alpha is Some,
        !target.has_module(path) || down is None || up is None,
    ensures
        views(report.skipped@).contains(path),
{
    let file = files[f];
    let keys = file.keys@;
    assert(file.keys.len() == keys.len());
    lemma_group_factors(layout, keys, path);
    let kv = views(keys);
    let n = keys.len() as int;
    let nd = |k: int| names_down(layout, keys[k]@, path);
    let nu = |k: int| names_up(layout, keys[k]@, path);
    let na = |k: int| names_alpha(layout, keys[k]@, path);
    lemma_one_last(nd, n, down, last_factor(layout, kv, path, Role::Down));
    lemma_one_last(nu, n, up, last_factor(layout, kv, path, Role::Up));
    lemma_one_last(na, n, alpha, last_factor(layout, kv, path, Role::Alpha));
    let k = match (down, up, alpha) {
        (Some(k), _, _) => {
            assert(nd(k as int));
            k as int
        },
        (None, Some(k), _) => {
            assert(nu(k as int));
            k as int
        },
        (None, None, Some(k)) => {
            assert(na(k as int));
            k as int
        },
        (None, None, None) => 0,
    };
    let g = lemma_offered(layout, file, path, k);
    let o = lemma_in_order(files, expert, f);
    let order = file_order(files, expert);
    lemma_left_out_has(target, offers(layout, file), g);
    lemma_all_has(target, files, layout, order, o);
    assert(all_left_out(target, files, layout, order).contains(path));
}

/// Every module of a Kronecker or Hadamard file that the target has takes a delta of it: of the kind that
/// the file is, under the path that a flattened name was resolved to, and else under the path itself.
pub proof fn law_factored_module_is_merged(
    target: Target,
    files: Seq<AdapterFile>,
    layout: KeyLayout,
    expert: MoeExpert,
    folds: Seq<Fold>,
    report: WanLoraReport,
    f: int,
    m: int,
    path: Seq<char>,
)
    requires
        files.len() <= usize::MAX,
        is_merge(target, files, layout, expert, folds, report),
        0 <= f < files.len(),
        is_for(files[f], expert),
        !is_low_rank(files[f]),
        0 <= m < files[f].modules@.len(),
        path == match files[f].modules@[m].resolved {
            Some(p) if files[f].kind == AdapterKind::Lora && !files[f].lokr_stamp => p@,
            _ => module_key(layout, files[f].modules@[m].raw@),
        },
    ensures
        target.has_module(path) ==> exists|j: int|
            0 <= j < folds.len() && (#[trigger] folds[j]).file == f && folds[j].path@ == path
                && folds[j].delta == if files[f].kind == AdapterKind::Lokr || files[f].lokr_stamp
                || files[f].lokr_keys {
                Delta::Lokr { module: m as usize }
            } else {
                Delta::Loha { module: m as usize }
            },
        !target.has_module(path) ==> views(report.skipped@).contains(path),
{
    let file = files[f];
    assert(file.modules.len() == file.modules@.len());
    let o = lemma_in_order(files, expert, f);
    let order = file_order(files, expert);
    let offered = offers(layout, file);
    lemma_all_has(target, files, layout, order, o);
    assert(offered[m].0 == path);
    assert(offered[m].1 is Some);
    let delta = offered[m].1->Some_0;
    if target.has_module(path) {
        lemma_taken_has(target, order[o], offered, m);
        let all = all_taken(target, files, layout, order);
        assert(all.contains((f as usize, path, delta)));
        let j = choose|j: int| 0 <= j < all.len() && all[j] == (f as usize, path, delta);
        assert(fold_views(folds)[j] == (folds[j].file, folds[j].path@, folds[j].delta));
    } else {
        lemma_left_out_has(target, offered, m);
        assert(all_left_out(target, files, layout, order).contains(path));
    }
}

/// Nothing else is merged: every delta is for a module that the target has, comes from a file that is for
/// the expert, and is made of that file's own tensors for that module, the scaling number among them
/// wherever the file has one.
pub proof fn law_only_offered_modules_are_merged(
    target: Target,
    files: Seq<AdapterFile>,
    layout: KeyLayout,
    expert: MoeExpert,
    folds: Seq<Fold>,
    report: WanLoraReport,
    j: int,
)
    requires
        files.len() <= usize::MAX,
        is_merge(target, files, layout, expert, folds, report),
        0 <= j < folds.len(),
    ensures
        folds[j].file < files.len(),
        is_for(files[folds[j].file as int], expert),
        target.has_module(folds[j].path@),
        ({
            let file = files[folds[j].file as int];
            match folds[j].delta {
                Delta::Lora { down, up, alpha } => is_low_rank(file) && are_factors(
                    layout,
                    file.keys@,
                    folds[j].path@,
                    Some(down),
                    Some(up),
                    alpha,
                ),
                Delta::Lokr { module } => {
                    &&& file.kind == AdapterKind::Lokr || file.lokr_stamp || file.lokr_keys
                    &&& module < file.modules@.len()
                },
                Delta::Loha { module } => {
                    &&& !(file.kind == AdapterKind::Lokr || file.lokr_stamp || file.lokr_keys)
                    &&& file.loha_keys
                    &&& module < file.modules@.len()
                },
            }
        }),
{
    let order = file_order(files, expert);
    law_file_order(files, expert);
    assert(fold_views(folds)[j] == (folds[j].file, folds[j].path@, folds[j].delta));
    let (o, t) = lemma_all_from(target, files, layout, order, j);
    let file = files[order[o] as int];
    let offered = offers(layout, file);
    lemma_taken_from(target, order[o], offered, t);
    assert(file.applies_to(expert));
    let got = taken(target, order[o], offered)[t];
    let k = choose|k: int| 0 <= k < offered.len() && #[trigger] offered[k] == (got.1, Some(got.2));
    assert(file.modules.len() == file.modules@.len());
    if is_low_rank(file) {
        let kv = views(file.keys@);
        assert(file.keys.len() == file.keys@.len());
        lemma_group_factors(layout, file.keys@, got.1);
        assert(groups_of(layout, kv)[k].0 == factor_paths(layout, kv)[k]);
        assert(offered[k].0 == groups_of(layout, kv)[k].0);
    }
}

/// The file of a delta is one of those that apply, and deltas go in the order of the files.
proof fn lemma_order_of_deltas(
    target: Target,
    files: Seq<AdapterFile>,
    layout: KeyLayout,
    order: Seq<usize>,
    i: int,
    j: int,
) -> (r: (int, int))
    requires
        0 <= i <= j < all_taken(target, files, layout, order).len(),
    ensures
        0 <= r.0 <= r.1 < order.len(),
        all_taken(target, files, layout, order)[i].0 == order[r.0],
        all_taken(target, files, layout, order)[j].0 == order[r.1],
    decreases order.len(),
{
    let all = all_taken(target, files, layout, order);
    let head = all_taken(target, files, layout, order.drop_last());
    let last = order.len() - 1;
    let own = taken(target, order.last(), offers(layout, files[order.last() as int]));
    assert(all == head + own);
    if j < head.len() {
        let r = lemma_order_of_deltas(target, files, layout, order.drop_last(), i, j);
        assert(order.drop_last()[r.0] == order[r.0] && order.drop_last()[r.1] == order[r.1]);
        r
    } else {
        lemma_taken_from(
            target,
            order.last(),
            offers(layout, files[order.last() as int]),
            j - head.len(),
        );
        assert(all[j] == own[j - head.len()]);
        if i < head.len() {
            let r = lemma_order_of_deltas(target, files, layout, order.drop_last(), i, i);
            assert(order.drop_last()[r.0] == order[r.0]);
            (r.0, last)
        } else {
            lemma_taken_from(
                target,
                order.last(),
                offers(layout, files[order.last() as int]),
                i - head.len(),
            );
            assert(all[i] == own[i - head.len()]);
            (last, last)
        }
    }
}

/// Which files the places of an order stand for.
proof fn lemma_order_is_sorted(files: Seq<AdapterFile>, expert: MoeExpert, a: int, b: int)
    requires
        files.len() <= usize::MAX,
        0 <= a < b < file_order(files, expert).len(),
    ensures
        ({
            let (x, y) = (file_order(files, expert)[a], file_order(files, expert)[b]);
            &&& x < files.len() && y < files.len()
            &&& (files[x as int].moe_expert is None <==> files[y as int].moe_expert is None) ==> x
                < y
            &&& files[y as int].moe_expert is None ==> files[x as int].moe_expert is None
        }),
{
    law_file_order(files, expert);
    let n = files.len();
    let p = crate::adapters::tagged(files, None, n);
    let q = crate::adapters::tagged(files, Some(expert), n);
    lemma_tagged(files, None, n);
    lemma_tagged(files, Some(expert), n);
    let order = file_order(files, expert);
    assert(order == p + q);
    if b < p.len() {
        assert(order[a] == p[a] && order[b] == p[b]);
    } else if a >= p.len() {
        assert(order[a] == q[a - p.len()] && order[b] == q[b - p.len()]);
    } else {
        assert(order[a] == p[a] && order[b] == q[b - p.len()]);
    }
}

/// The files of a tag are listed in their order.
proof fn lemma_tagged(files: Seq<AdapterFile>, tag: Option<MoeExpert>, n: nat)
    requires
        n <= files.len() <= usize::MAX,
    ensures
        ({
            let t = crate::adapters::tagged(files, tag, n);
            &&& forall|k: int|
                0 <= k < t.len() ==> (#[trigger] t[k]) < n && files[t[k] as int].moe_expert == tag
            &&& forall|i: int, j: int|
                0 <= i < j < t.len() ==> (#[trigger] t[i]) < (#[trigger] t[j])
        }),
    decreases n,
{
    if n > 0 {
        lemma_tagged(files, tag, (n - 1) as nat);
        let h = crate::adapters::tagged(files, tag, (n - 1) as nat);
        let t = crate::adapters::tagged(files, tag, n);
        assert forall|k: int| 0 <= k < t.len() implies (#[trigger] t[k]) < n
            && files[t[k] as int].moe_expert == tag by {
            if k < h.len() {
                assert(t[k] == h[k]);
            }
        }
        assert forall|i: int, j: int| 0 <= i < j < t.len() implies (#[trigger] t[i]) < (
        #[trigger] t[j]) by {
            assert(t[i] == h[i]);
            if j < h.len() {
                assert(t[j] == h[j]);
            }
        }
    }
}

/// Deltas accumulate in the order that was asked for: those of files for both experts come before those of
/// files for one, and within either kind an earlier file's come before a later one's.
pub proof fn law_deltas_go_in_the_order_of_the_files(
    target: Target,
    files: Seq<AdapterFile>,
    layout: KeyLayout,
    expert: MoeExpert,
    folds: Seq<Fold>,
    report: WanLoraReport,
    i: int,
    j: int,
)
    requires
        files.len() <= usize::MAX,
        is_merge(target, files, layout, expert, folds, report),
        0 <= i < j < folds.len(),
    ensures
        ({
            let (x, y) = (folds[i].file, folds[j].file);
            &&& x < files.len() && y < files.len()
            &&& files[y as int].moe_expert is None ==> files[x as int].moe_expert is None
            &&& (files[x as int].moe_expert is None <==> files[y as int].moe_expert is None) ==> x
                <= y
        }),
{
    let order = file_order(files, expert);
    law_file_order(files, expert);
    assert(fold_views(folds)[i] == (folds[i].file, folds[i].path@, folds[i].delta));
    assert(fold_views(folds)[j] == (folds[j].file, folds[j].path@, folds[j].delta));
    let (a, b) = lemma_order_of_deltas(target, files, layout, order, i, j);
    if a < b {
        lemma_order_is_sorted(files, expert, a, b);
    }
}

/// A report counts the deltas, and the files that are for the expert.
pub proof fn law_report_counts_what_was_done(
    target: Target,
    files: Seq<AdapterFile>,
    layout: KeyLayout,
    expert: MoeExpert,
    folds: Seq<Fold>,
    report: WanLoraReport,
)
    requires
        files.len() <= usize::MAX,
        is_merge(target, files, layout, expert, folds, report),
    ensures
        report.applied == folds.len(),
        report.applicable == files.filter(|f: AdapterFile| is_for(f, expert)).len(),
{
    lemma_counted(files, expert, files.len());
    assert(files.take(files.len() as int) =~= files);
}

/// How many of the first files are for an expert.
proof fn lemma_counted(files: Seq<AdapterFile>, expert: MoeExpert, n: nat)
    requires
        n <= files.len(),
    ensures
        crate::adapters::tagged(files, None, n).len() + crate::adapters::tagged(
            files,
            Some(expert),
            n,
        ).len() == files.take(n as int).filter(|f: AdapterFile| is_for(f, expert)).len(),
    decreases n,
{
    reveal(Seq::filter);
    if n > 0 {
        lemma_counted(files, expert, (n - 1) as nat);
        assert(files.take(n as int).drop_last() =~= files.take(n - 1));
        assert(files.take(n as int).last() == files[n - 1]);
    }
}

/// Of two experts each takes only files that are for it: a delta of the low-noise expert is for a module of
/// the low-noise weights and comes from a file for both or for the low-noise one, and likewise for the
/// high-noise expert.
pub proof fn law_each_expert_takes_its_own_files(
    low: Target,
    high: Target,
    files: Seq<AdapterFile>,
    a: AppliedDual,
)
    requires
        files.len() <= usize::MAX,
        is_applied_dual(low, high, files, a),
    ensures
        a.low@.len() > 0 || a.high@.len() > 0,
        forall|j: int|
            0 <= j < a.low@.len() ==> (#[trigger] a.low@[j]).file < files.len() && is_for(
                files[a.low@[j].file as int],
                MoeExpert::Low,
            ) && low.has_module(a.low@[j].path@),
        forall|j: int|
            0 <= j < a.high@.len() ==> (#[trigger] a.high@[j]).file < files.len() && is_for(
                files[a.high@[j].file as int],
                MoeExpert::High,
            ) && high.has_module(a.high@[j].path@),
{
    assert(fold_views(a.low@).len() == a.low@.len());
    assert(fold_views(a.high@).len() == a.high@.len());
    assert forall|j: int| 0 <= j < a.low@.len() implies (#[trigger] a.low@[j]).file < files.len()
        && is_for(files[a.low@[j].file as int], MoeExpert::Low) && low.has_module(
        a.low@[j].path@,
    ) by {
        lemma_own_file(low, files, MoeExpert::Low, a.low@, j);
    }
    assert forall|j: int| 0 <= j < a.high@.len() implies (#[trigger] a.high@[j]).file < files.len()
        && is_for(files[a.high@[j].file as int], MoeExpert::High) && high.has_module(
        a.high@[j].path@,
    ) by {
        lemma_own_file(high, files, MoeExpert::High, a.high@, j);
    }
}

/// A delta of an expert comes from a file for it.
proof fn lemma_own_file(
    target: Target,
    files: Seq<AdapterFile>,
    expert: MoeExpert,
    folds: Seq<Fold>,
    j: int,
)
    requires
        files.len() <= usize::MAX,
        fold_views(folds) == all_taken(
            target,
            files,
            KeyLayout::Native,
            file_order(files, expert),
        ),
        0 <= j < folds.len(),
    ensures
        folds[j].file < files.len(),
        is_for(files[folds[j].file as int], expert),
        target.has_module(folds[j].path@),
{
    let order = file_order(files, expert);
    law_file_order(files, expert);
    assert(fold_views(folds)[j] == (folds[j].file, folds[j].path@, folds[j].delta));
    let (o, t) = lemma_all_from(target, files, KeyLayout::Native, order, j);
    lemma_taken_from(target, order[o], offers(KeyLayout::Native, files[order[o] as int]), t);
    assert(files[order[o] as int].applies_to(expert));
}

/// Where no file has a fault, no file has one.
proof fn lemma_no_file_fault(
    layout: KeyLayout,
    files: Seq<AdapterFile>,
    order: Seq<usize>,
    n: nat,
    o: int,
)
    requires
        0 <= o < n <= order.len(),
        first_file_fault(layout, files, order, n) is None,
    ensures
        file_fault(layout, files[order[o] as int]) is None,
    decreases n,
{
    if o < n - 1 {
        lemma_no_file_fault(layout, files, order, (n - 1) as nat, o);
    }
}

/// Where no module has a fault, no module has one.
proof fn lemma_no_fault(
    file: AdapterFile,
    groups: Seq<(Seq<char>, Option<usize>, Option<usize>, Option<usize>)>,
    n: nat,
    k: int,
)
    requires
        0 <= k < n <= groups.len(),
        first_fault(file, groups, n) is None,
    ensures
        factor_fault(file, groups[k]) is None,
    decreases n,
{
    if k < n - 1 {
        lemma_no_fault(file, groups, (n - 1) as nat, k);
    }
}

/// A built model carries only factors that are matrices of a rank above zero: wherever none of its files is
/// refused, the factors of every low-rank module of theirs are.
pub proof fn law_carried_factors_are_matrices(
    files: Seq<AdapterFile>,
    layout: KeyLayout,
    expert: MoeExpert,
    f: int,
    path: Seq<char>,
    down: usize,
    up: usize,
    alpha: Option<usize>,
)
    requires
        files.len() <= usize::MAX,
        first_file_fault(layout, files, file_order(files, expert), file_order(files, expert).len()) is None,
        0 <= f < files.len(),
        files[f].shapes@.len() == files[f].keys@.len(),
        is_for(files[f], expert),
        is_low_rank(files[f]),
        are_factors(layout, files[f].keys@, path, Some(down), Some(up), alpha),
    ensures
        files[f].shapes@[down as int]@.len() == 2,
        files[f].shapes@[up as int]@.len() == 2,
        files[f].shapes@[down as int]@[0] > 0,
{
    let file = files[f];
    let keys = file.keys@;
    let kv = views(keys);
    assert(file.keys.len() == keys.len());
    let o = lemma_in_order(files, expert, f);
    let order = file_order(files, expert);
    lemma_no_file_fault(layout, files, order, order.len(), o);
    lemma_group_factors(layout, keys, path);
    let n = keys.len() as int;
    let nd = |k: int| names_down(layout, keys[k]@, path);
    let nu = |k: int| names_up(layout, keys[k]@, path);
    lemma_one_last(nd, n, Some(down), last_factor(layout, kv, path, Role::Down));
    lemma_one_last(nu, n, Some(up), last_factor(layout, kv, path, Role::Up));
    assert(nd(down as int));
    let g = lemma_offered(layout, file, path, down as int);
    let groups = groups_of(layout, kv);
    assert(groups[g].0 == factor_paths(layout, kv)[g]);
    assert(offers(layout, file)[g].0 == groups[g].0);
    lemma_no_fault(file, groups, groups.len(), g);
    assert(shape_at(file, down) == file.shapes@[down as int]@);
    assert(shape_at(file, up) == file.shapes@[up as int]@);
}

} // verus!
