//! The validation engine: reconciles registered comparisons and the
//! store into an ordered sequence of verdicts.

use vstd::prelude::*;
use vstd::pervasive::unreached;
use vstd::utf8::{encode_utf8, valid_utf8};
use crate::extensions::{
    byte_diff_chars, byte_diff_rel, byte_for_byte_diff, byte_for_byte_equality, text_diff,
    text_diff_chars,
};
use crate::filesystem::{
    FakeFileSystem, FileSystem, FsStore, store_files_under, store_get, store_has, store_put,
};
use crate::paths::{
    add_extension_view, has_substring, has_suffix, is_absolute_path, join_view, str_has_suffix,
    str_has_substring,
};
use crate::provider::{Comparison, ComparisonView, DiffMethod, Provider, Registry, WriteRequester};
use crate::results::{KindView, Verdict, VerdictView};

verus! {

/// True when the test name `name` passes the optional substring filter.
pub open spec fn name_filter_allows(filter: Option<Seq<char>>, name: Seq<char>) -> bool {
    match filter {
        Option::None => true,
        Option::Some(f) => has_substring(name, f),
    }
}

/// The value of an optional name filter.
pub open spec fn name_filter_view(o: Option<String>) -> Option<Seq<char>> {
    match o {
        Option::None => Option::None,
        Option::Some(s) => Option::Some(s@),
    }
}

/// True when the declared path `path` passes the optional file-type
/// filter: absent filter admits everything, a present filter admits a
/// path ending in any of its suffixes.
pub open spec fn filter_allows(filter: Option<Seq<Seq<char>>>, path: Seq<char>) -> bool {
    match filter {
        Option::None => true,
        Option::Some(sufs) => exists|i: int|
            0 <= i < sufs.len() && has_suffix(path, #[trigger] sufs[i]),
    }
}

/// The values of a sequence of path strings.
pub open spec fn str_views(v: Seq<String>) -> Seq<Seq<char>> {
    v.map_values(|s: String| s@)
}

/// The value of an optional file-type filter.
pub open spec fn filetypes_view(o: Option<Vec<String>>) -> Option<Seq<Seq<char>>> {
    match o {
        Option::None => Option::None,
        Option::Some(v) => Option::Some(str_views(v@)),
    }
}

/// Whether the test named `name` should run under the optional filter.
pub fn should_continue(name: &str, filter: &Option<String>) -> (r: bool)
    ensures
        r == name_filter_allows(name_filter_view(*filter), name@),
{
    match filter {
        Option::None => true,
        Option::Some(f) => str_has_substring(name, f.as_str()),
    }
}

/// Whether the declared path `file` is validated under the optional
/// file-type filter.
#[verifier::loop_isolation(false)]
pub fn file_filter(file: &str, filetypes: &Option<Vec<String>>) -> (r: bool)
    ensures
        r == filter_allows(filetypes_view(*filetypes), file@),
{
    match filetypes {
        Option::None => true,
        Option::Some(fts) => {
            proof {
                assert(*filetypes == Option::Some(*fts));
            }
            let n = fts.len();
            let mut i: usize = 0;
            while i < n
                invariant
                    n == fts@.len(),
                    0 <= i <= n,
                    forall|j: int| 0 <= j < i ==> !has_suffix(file@, #[trigger] fts@[j]@),
                decreases n - i,
            {
                if str_has_suffix(file, fts[i].as_str()) {
                    proof {
                        let sufs = str_views(fts@);
                        assert(sufs[i as int] == fts@[i as int]@);
                        assert(has_suffix(file@, sufs[i as int]));
                        assert(filter_allows(Option::Some(sufs), file@));
                        assert(filetypes_view(*filetypes) == Option::Some(sufs));
                    }
                    return true;
                }
                i = i + 1;
            }
            proof {
                let sufs = str_views(fts@);
                assert forall|idx: int| 0 <= idx < sufs.len() implies !has_suffix(
                    file@,
                    #[trigger] sufs[idx],
                ) by {
                    assert(sufs[idx] == fts@[idx]@);
                }
            }
            false
        },
    }
}

/// The verdict for a matched artifact, as a value.
pub open spec fn vv_ok(name: Seq<char>, file: Seq<char>) -> VerdictView {
    VerdictView { test_name: name, file_name: file, kind: KindView::Matched }
}

/// The verdict for a missing baseline, as a value.
pub open spec fn vv_expected_not_found(
    name: Seq<char>,
    file: Seq<char>,
    actual: Seq<char>,
    expected: Seq<char>,
) -> VerdictView {
    VerdictView {
        test_name: name,
        file_name: file,
        kind: KindView::ExpectedNotFound { actual, expected },
    }
}

/// The verdict for a missing actual artifact, as a value.
pub open spec fn vv_actual_not_found(
    name: Seq<char>,
    file: Seq<char>,
    actual: Seq<char>,
    expected: Seq<char>,
) -> VerdictView {
    VerdictView {
        test_name: name,
        file_name: file,
        kind: KindView::ActualNotFound { actual, expected },
    }
}

/// The verdict for differing contents, as a value.
pub open spec fn vv_difference(
    name: Seq<char>,
    file: Seq<char>,
    actual: Seq<char>,
    expected: Seq<char>,
    diffs: Seq<Seq<char>>,
) -> VerdictView {
    VerdictView {
        test_name: name,
        file_name: file,
        kind: KindView::Difference { actual, expected, diffs },
    }
}

/// The verdict for a failed filesystem operation, as a value.
pub open spec fn vv_io_error(name: Seq<char>, file: Seq<char>, message: Seq<char>) -> VerdictView {
    VerdictView { test_name: name, file_name: file, kind: KindView::IoError { message } }
}

/// The verdicts one processed comparison contributes, and the store it
/// leaves behind (diff-artifact generation writes into the store).
pub open spec fn eval_comparison(
    name: Seq<char>,
    c: ComparisonView,
    act_root: Seq<char>,
    exp_root: Seq<char>,
    diff_root: Seq<char>,
    store: Seq<(Seq<char>, Seq<u8>)>,
) -> (Seq<VerdictView>, Seq<(Seq<char>, Seq<u8>)>) {
    let full_act = join_view(act_root, c.path);
    let full_exp = join_view(exp_root, c.path);
    if !store_has(store, full_act) {
        (seq![vv_actual_not_found(name, c.path, full_act, full_exp)], store)
    } else if !store_has(store, full_exp) {
        (seq![vv_expected_not_found(name, c.path, full_act, full_exp)], store)
    } else {
        let a = store_get(store, full_act);
        let e = store_get(store, full_exp);
        if a == e {
            (seq![vv_ok(name, c.path)], store)
        } else {
            match c.method {
                DiffMethod::Bytes => {
                    let full_diff = join_view(diff_root, byte_diff_rel(c.path));
                    (
                        seq![
                            vv_difference(name, c.path, full_act, full_exp, seq![full_diff]),
                        ],
                        store_put(store, full_diff, encode_utf8(byte_diff_chars(a, e))),
                    )
                },
                DiffMethod::Text => {
                    if valid_utf8(a) && valid_utf8(e) {
                        let full_diff = join_view(
                            diff_root,
                            add_extension_view(c.path, ".diff"@),
                        );
                        (
                            seq![
                                vv_difference(name, c.path, full_act, full_exp, seq![full_diff]),
                            ],
                            store_put(store, full_diff, encode_utf8(text_diff_chars(a, e))),
                        )
                    } else {
                        (
                            seq![
                                vv_difference(
                                    name,
                                    c.path,
                                    full_act,
                                    full_exp,
                                    Seq::<Seq<char>>::empty(),
                                ),
                                vv_io_error(name, c.path, "artifact is not valid utf-8 text"@),
                            ],
                            store,
                        )
                    }
                },
            }
        }
    }
}

/// The pending phase: comparisons processed in registration order, each
/// at most once, those failing the filter skipped. Yields the verdicts,
/// the store left behind, and the set of visited declared paths.
pub open spec fn run_pending(
    name: Seq<char>,
    act_root: Seq<char>,
    exp_root: Seq<char>,
    diff_root: Seq<char>,
    store: Seq<(Seq<char>, Seq<u8>)>,
    pending: Seq<ComparisonView>,
    filter: Option<Seq<Seq<char>>>,
    visited: Seq<Seq<char>>,
) -> (Seq<VerdictView>, Seq<(Seq<char>, Seq<u8>)>, Seq<Seq<char>>)
    decreases pending.len(),
{
    if pending.len() == 0 {
        (Seq::<VerdictView>::empty(), store, visited)
    } else {
        let c = pending[0];
        if !filter_allows(filter, c.path) || visited.contains(c.path) {
            run_pending(name, act_root, exp_root, diff_root, store, pending.drop_first(), filter, visited)
        } else {
            let step = eval_comparison(name, c, act_root, exp_root, diff_root, store);
            let rest = run_pending(
                name,
                act_root,
                exp_root,
                diff_root,
                step.1,
                pending.drop_first(),
                filter,
                visited.push(c.path),
            );
            (step.0 + rest.0, rest.1, rest.2)
        }
    }
}

/// The orphan sweep: every file under the expected tree that passed the
/// filter, was never visited, and has no actual counterpart reports a
/// missing actual artifact.
pub open spec fn orphan_sweep(
    name: Seq<char>,
    act_root: Seq<char>,
    exp_root: Seq<char>,
    store: Seq<(Seq<char>, Seq<u8>)>,
    files: Seq<Seq<char>>,
    filter: Option<Seq<Seq<char>>>,
    visited: Seq<Seq<char>>,
) -> Seq<VerdictView>
    decreases files.len(),
{
    if files.len() == 0 {
        Seq::<VerdictView>::empty()
    } else {
        let f = files[0];
        let rest = orphan_sweep(name, act_root, exp_root, store, files.drop_first(), filter, visited);
        if filter_allows(filter, f) && !visited.contains(f) && !store_has(
            store,
            join_view(act_root, f),
        ) {
            seq![
                vv_actual_not_found(name, f, join_view(act_root, f), join_view(exp_root, f)),
            ] + rest
        } else {
            rest
        }
    }
}

/// The root of the expected tree for test `name` under `top`.
pub open spec fn expected_root(top: Seq<char>, name: Seq<char>) -> Seq<char> {
    join_view(join_view(top, "expected"@), name)
}

/// The root of the actual tree for test `name` under `top`.
pub open spec fn actual_root(top: Seq<char>, name: Seq<char>) -> Seq<char> {
    join_view(join_view(top, "actual"@), name)
}

/// The root of the diff tree for test `name` under `top`.
pub open spec fn diff_root(top: Seq<char>, name: Seq<char>) -> Seq<char> {
    join_view(join_view(top, "diff"@), name)
}

/// What validation returns and what it leaves in the store: the pending
/// phase in registration order, then the orphan sweep over the expected
/// tree in store order.
pub open spec fn validate_spec(
    name: Seq<char>,
    top: Seq<char>,
    store: Seq<(Seq<char>, Seq<u8>)>,
    pending: Seq<ComparisonView>,
    filter: Option<Seq<Seq<char>>>,
) -> (Seq<VerdictView>, Seq<(Seq<char>, Seq<u8>)>) {
    let act = actual_root(top, name);
    let exp = expected_root(top, name);
    let dif = diff_root(top, name);
    let step = run_pending(name, act, exp, dif, store, pending, filter, Seq::<Seq<char>>::empty());
    let orphans = orphan_sweep(
        name,
        act,
        exp,
        step.1,
        store_files_under(step.1, exp),
        filter,
        step.2,
    );
    (step.0 + orphans, step.1)
}


/// The values of a sequence of verdicts.
pub open spec fn verdict_views(v: Seq<Verdict>) -> Seq<VerdictView> {
    v.map_values(|x: Verdict| x@)
}

/// The values of a sequence of comparisons.
pub open spec fn comparison_views(v: Seq<Comparison>) -> Seq<ComparisonView> {
    v.map_values(|c: Comparison| c@)
}

fn contains_path(v: &Vec<String>, p: &String) -> (r: bool)
    ensures
        r == str_views(v@).contains(p@),
{
    let n = v.len();
    let mut i: usize = 0;
    while i < n
        invariant
            n == v@.len(),
            0 <= i <= n,
            forall|j: int| 0 <= j < i ==> #[trigger] v@[j]@ != p@,
        decreases n - i,
    {
        if v[i] == *p {
            proof {
                assert(str_views(v@)[i as int] == p@);
            }
            return true;
        }
        i = i + 1;
    }
    proof {
        assert forall|j: int| 0 <= j < str_views(v@).len() implies #[trigger] str_views(v@)[j]
            != p@ by {
            assert(str_views(v@)[j] == v@[j]@);
        }
    }
    false
}

/// Consumes the registry's pending comparisons and reconciles them with
/// the store into the verdict sequence `validate_spec` describes.
#[verifier::loop_isolation(false)]
pub fn validate(
    name: &str,
    fs: FakeFileSystem,
    store: &mut FsStore,
    provider: &Provider,
    registry: &mut Registry,
    filetypes: &Option<Vec<String>>,
) -> (out: Vec<Verdict>)
    requires
        old(store).wf(),
        !is_absolute_path(name@),
    ensures
        verdict_views(out@) == validate_spec(
            name@,
            fs.root_view(),
            old(store)@,
            old(registry)@,
            filetypes_view(*filetypes),
        ).0,
        final(store)@ == validate_spec(
            name@,
            fs.root_view(),
            old(store)@,
            old(registry)@,
            filetypes_view(*filetypes),
        ).1,
        final(store).wf(),
        final(registry)@ == Seq::<ComparisonView>::empty(),
{
    proof {
        reveal_strlit("expected");
        reveal_strlit("actual");
        reveal_strlit("diff");
    }
    let expected_fs = fs.subsystem("expected").subsystem(name);
    let actual_fs = fs.subsystem("actual").subsystem(name);
    let diff_fs = fs.subsystem("diff").subsystem(name);

    let ghost top = fs.root_view();
    let ghost act_r = actual_root(top, name@);
    let ghost exp_r = expected_root(top, name@);
    let ghost dif_r = diff_root(top, name@);
    let ghost flt = filetypes_view(*filetypes);
    let ghost s0 = store@;

    let pending = provider.take_files(registry);
    let ghost pend = old(registry)@;
    proof {
        assert(comparison_views(pending@) =~= pend);
    }
    let ghost target = run_pending(
        name@,
        act_r,
        exp_r,
        dif_r,
        s0,
        pend,
        flt,
        Seq::<Seq<char>>::empty(),
    );

    let mut visited: Vec<String> = Vec::new();
    let mut out: Vec<Verdict> = Vec::new();
    let n = pending.len();
    let mut i: usize = 0;
    proof {
        assert(pend.skip(0) =~= pend);
        assert(str_views(visited@) =~= Seq::<Seq<char>>::empty());
        assert(verdict_views(out@) =~= Seq::<VerdictView>::empty());
        assert(verdict_views(out@) + target.0 =~= target.0);
    }
    while i < n
        invariant
            n == pending@.len(),
            0 <= i <= n,
            pend == comparison_views(pending@),
            store.wf(),
            actual_fs.root_view() == act_r,
            expected_fs.root_view() == exp_r,
            diff_fs.root_view() == dif_r,
            flt == filetypes_view(*filetypes),
            target.0 == verdict_views(out@) + run_pending(
                name@,
                act_r,
                exp_r,
                dif_r,
                store@,
                pend.skip(i as int),
                flt,
                str_views(visited@),
            ).0,
            target.1 == run_pending(
                name@,
                act_r,
                exp_r,
                dif_r,
                store@,
                pend.skip(i as int),
                flt,
                str_views(visited@),
            ).1,
            target.2 == run_pending(
                name@,
                act_r,
                exp_r,
                dif_r,
                store@,
                pend.skip(i as int),
                flt,
                str_views(visited@),
            ).2,
        decreases n - i,
    {
        let ghost vis0 = str_views(visited@);
        let ghost out0 = verdict_views(out@);
        let ghost snow = store@;
        let ghost rem = pend.skip(i as int);
        let c = &pending[i];
        let ghost cv = pend[i as int];
        proof {
            assert(rem[0] == pend[i as int]);
            assert(rem.drop_first() =~= pend.skip(i + 1));
            assert(comparison_views(pending@)[i as int] == pending@[i as int]@);
            assert(c.path@ == cv.path);
            assert(c.method == cv.method);
        }
        if !file_filter(c.path.as_str(), filetypes) || contains_path(&visited, &c.path) {
            proof {
                assert(!filter_allows(flt, cv.path) || vis0.contains(cv.path));
                assert(run_pending(name@, act_r, exp_r, dif_r, snow, rem, flt, vis0)
                    == run_pending(name@, act_r, exp_r, dif_r, snow, pend.skip(i + 1), flt, vis0));
            }
            i = i + 1;
            continue;
        }
        visited.push(c.path.clone());
        proof {
            assert(str_views(visited@) =~= vis0.push(cv.path));
        }
        let ghost step = eval_comparison(name@, cv, act_r, exp_r, dif_r, snow);
        if !actual_fs.exists_at(store, c.path.as_str()) {
            let v = Verdict::actual_not_found(
                name,
                c.path.as_str(),
                actual_fs.full_path_for(c.path.as_str()),
                expected_fs.full_path_for(c.path.as_str()),
            );
            out.push(v);
            proof {
                assert(verdict_views(out@) =~~= out0 + step.0);
            }
        } else if !expected_fs.exists_at(store, c.path.as_str()) {
            let v = Verdict::expected_not_found(
                name,
                c.path.as_str(),
                actual_fs.full_path_for(c.path.as_str()),
                expected_fs.full_path_for(c.path.as_str()),
            );
            out.push(v);
            proof {
                assert(verdict_views(out@) =~~= out0 + step.0);
            }
        } else {
            let a = match actual_fs.read(store, c.path.as_str()) {
                Result::Ok(v) => v,
                Result::Err(_) => unreached(),
            };
            let e = match expected_fs.read(store, c.path.as_str()) {
                Result::Ok(v) => v,
                Result::Err(_) => unreached(),
            };
            if byte_for_byte_equality(&a, &e) {
                let v = Verdict::ok(name, c.path.as_str());
                out.push(v);
                proof {
                    assert(verdict_views(out@) =~~= out0 + step.0);
                }
            } else {
                match c.method {
                    DiffMethod::Bytes => {
                        let mut requester = WriteRequester::new(diff_fs.duplicate());
                        byte_for_byte_diff(&a, &e, c.path.as_str(), &mut requester, store);
                        let v = Verdict::difference(
                            name,
                            c.path.as_str(),
                            actual_fs.full_path_for(c.path.as_str()),
                            expected_fs.full_path_for(c.path.as_str()),
                            requester.into_files(),
                        );
                        out.push(v);
                        proof {
                            assert(verdict_views(out@) =~~= out0 + step.0);
                            assert(store@ == step.1);
                        }
                    },
                    DiffMethod::Text => {
                        let mut requester = WriteRequester::new(diff_fs.duplicate());
                        match text_diff(&a, &e, c.path.as_str(), &mut requester, store) {
                            Result::Ok(()) => {
                                let v = Verdict::difference(
                                    name,
                                    c.path.as_str(),
                                    actual_fs.full_path_for(c.path.as_str()),
                                    expected_fs.full_path_for(c.path.as_str()),
                                    requester.into_files(),
                                );
                                out.push(v);
                                proof {
                                    assert(verdict_views(out@) =~~= out0 + step.0);
                                    assert(store@ == step.1);
                                }
                            },
                            Result::Err(err) => {
                                let v = Verdict::difference(
                                    name,
                                    c.path.as_str(),
                                    actual_fs.full_path_for(c.path.as_str()),
                                    expected_fs.full_path_for(c.path.as_str()),
                                    requester.into_files(),
                                );
                                out.push(v);
                                let v2 = Verdict::io_error(name, c.path.as_str(), err.message);
                                out.push(v2);
                                proof {
                                    assert(verdict_views(out@) =~~= out0 + step.0);
                                    assert(store@ == step.1);
                                }
                            },
                        }
                    },
                }
            }
        }
        proof {
            let visv1 = str_views(visited@);
            let r_next = run_pending(
                name@,
                act_r,
                exp_r,
                dif_r,
                store@,
                pend.skip(i + 1),
                flt,
                visv1,
            );
            assert(run_pending(name@, act_r, exp_r, dif_r, snow, rem, flt, vis0) == (
                step.0 + r_next.0,
                r_next.1,
                r_next.2,
            ));
            assert((out0 + step.0) + r_next.0 =~= out0 + (step.0 + r_next.0));
            assert(target.0 == verdict_views(out@) + r_next.0);
        }
        i = i + 1;
    }
    proof {
        assert(pend.skip(n as int) =~= Seq::<ComparisonView>::empty());
        assert(verdict_views(out@) + Seq::<VerdictView>::empty() =~= verdict_views(out@));
        assert(target.0 == verdict_views(out@));
        assert(target.1 == store@);
        assert(target.2 == str_views(visited@));
    }

    let ghost s_fin = store@;
    let ghost vis_fin = str_views(visited@);
    let files = expected_fs.files(store);
    let ghost fviews = str_views(files@);
    proof {
        assert(fviews =~= store_files_under(s_fin, exp_r));
    }
    let ghost sweep_total = orphan_sweep(name@, act_r, exp_r, s_fin, fviews, flt, vis_fin);

    let m = files.len();
    let mut k: usize = 0;
    proof {
        assert(fviews.skip(0) =~= fviews);
    }
    while k < m
        invariant
            m == files@.len(),
            0 <= k <= m,
            fviews == str_views(files@),
            store.wf(),
            store@ == s_fin,
            actual_fs.root_view() == act_r,
            expected_fs.root_view() == exp_r,
            flt == filetypes_view(*filetypes),
            vis_fin == str_views(visited@),
            target.0 + sweep_total == verdict_views(out@) + orphan_sweep(
                name@,
                act_r,
                exp_r,
                s_fin,
                fviews.skip(k as int),
                flt,
                vis_fin,
            ),
        decreases m - k,
    {
        let ghost remf = fviews.skip(k as int);
        let ghost out0 = verdict_views(out@);
        let ghost fv = fviews[k as int];
        proof {
            assert(remf[0] == fviews[k as int]);
            assert(remf.drop_first() =~= fviews.skip(k + 1));
            assert(str_views(files@)[k as int] == files@[k as int]@);
        }
        let f = &files[k];
        let mut emitted: bool = false;
        if file_filter(f.as_str(), filetypes) && !contains_path(&visited, f) {
            if !actual_fs.exists_at(store, f.as_str()) {
                let v = Verdict::actual_not_found(
                    name,
                    f.as_str(),
                    actual_fs.full_path_for(f.as_str()),
                    expected_fs.full_path_for(f.as_str()),
                );
                out.push(v);
                emitted = true;
                proof {
                    assert(verdict_views(out@) =~~= out0 + seq![
                        vv_actual_not_found(name@, fv, join_view(act_r, fv), join_view(exp_r, fv)),
                    ]);
                }
            }
        }
        proof {
            let rest = orphan_sweep(name@, act_r, exp_r, s_fin, fviews.skip(k + 1), flt, vis_fin);
            if emitted {
                assert(orphan_sweep(name@, act_r, exp_r, s_fin, remf, flt, vis_fin) == seq![
                    vv_actual_not_found(name@, fv, join_view(act_r, fv), join_view(exp_r, fv)),
                ] + rest);
                assert((out0 + seq![
                    vv_actual_not_found(name@, fv, join_view(act_r, fv), join_view(exp_r, fv)),
                ]) + rest =~= out0 + (seq![
                    vv_actual_not_found(name@, fv, join_view(act_r, fv), join_view(exp_r, fv)),
                ] + rest));
            } else {
                assert(orphan_sweep(name@, act_r, exp_r, s_fin, remf, flt, vis_fin) == rest);
            }
        }
        k = k + 1;
    }
    proof {
        assert(fviews.skip(m as int) =~= Seq::<Seq<char>>::empty());
        assert(orphan_sweep(name@, act_r, exp_r, s_fin, fviews.skip(m as int), flt, vis_fin)
            =~= Seq::<VerdictView>::empty());
        assert(verdict_views(out@) + Seq::<VerdictView>::empty() =~= verdict_views(out@));
        assert(verdict_views(out@) == target.0 + sweep_total);
    }
    out
}

/// How many verdicts in `vs` carry the declared path `f`.
pub open spec fn count_for_file(vs: Seq<VerdictView>, f: Seq<char>) -> nat
    decreases vs.len(),
{
    if vs.len() == 0 {
        0
    } else {
        (if vs[0].file_name == f {
            1nat
        } else {
            0nat
        }) + count_for_file(vs.drop_first(), f)
    }
}

proof fn lemma_count_concat(a: Seq<VerdictView>, b: Seq<VerdictView>, f: Seq<char>)
    ensures
        count_for_file(a + b, f) == count_for_file(a, f) + count_for_file(b, f),
    decreases a.len(),
{
    if a.len() == 0 {
        assert(a + b =~= b);
        assert(count_for_file(Seq::<VerdictView>::empty(), f) == 0);
    } else {
        lemma_count_concat(a.drop_first(), b, f);
        assert((a + b).drop_first() =~= a.drop_first() + b);
        assert((a + b)[0] == a[0]);
    }
}

proof fn lemma_eval_count(
    name: Seq<char>,
    c: ComparisonView,
    act_root: Seq<char>,
    exp_root: Seq<char>,
    diff_root: Seq<char>,
    store: Seq<(Seq<char>, Seq<u8>)>,
    f: Seq<char>,
)
    requires
        f != c.path,
    ensures
        count_for_file(eval_comparison(name, c, act_root, exp_root, diff_root, store).0, f) == 0,
{
    let step = eval_comparison(name, c, act_root, exp_root, diff_root, store);
    let e = Seq::<VerdictView>::empty();
    assert(count_for_file(e, f) == 0);
    if step.0.len() == 1 {
        assert(step.0.drop_first() =~= e);
        assert(step.0[0].file_name == c.path);
        assert(count_for_file(step.0, f) == 0);
    } else {
        assert(step.0.len() == 2);
        assert(step.0[0].file_name == c.path);
        assert(step.0.drop_first()[0].file_name == c.path);
        assert(step.0.drop_first().drop_first() =~= e);
        assert(count_for_file(step.0.drop_first(), f) == 0);
        assert(count_for_file(step.0, f) == 0);
    }
}

proof fn lemma_eval_wf(
    name: Seq<char>,
    c: ComparisonView,
    act_root: Seq<char>,
    exp_root: Seq<char>,
    diff_root: Seq<char>,
    store: Seq<(Seq<char>, Seq<u8>)>,
)
    requires
        crate::filesystem::store_wf(store),
    ensures
        crate::filesystem::store_wf(
            eval_comparison(name, c, act_root, exp_root, diff_root, store).1,
        ),
{
    let full_act = join_view(act_root, c.path);
    let full_exp = join_view(exp_root, c.path);
    if store_has(store, full_act) && store_has(store, full_exp) {
        let a = store_get(store, full_act);
        let e = store_get(store, full_exp);
        if a != e {
            match c.method {
                DiffMethod::Bytes => {
                    crate::filesystem::lemma_store_put_wf(
                        store,
                        join_view(diff_root, byte_diff_rel(c.path)),
                        encode_utf8(byte_diff_chars(a, e)),
                    );
                },
                DiffMethod::Text => {
                    if valid_utf8(a) && valid_utf8(e) {
                        crate::filesystem::lemma_store_put_wf(
                            store,
                            join_view(diff_root, add_extension_view(c.path, ".diff"@)),
                            encode_utf8(text_diff_chars(a, e)),
                        );
                    }
                },
            }
        }
    }
}

proof fn lemma_visited_monotone(
    name: Seq<char>,
    act_root: Seq<char>,
    exp_root: Seq<char>,
    diff_root: Seq<char>,
    store: Seq<(Seq<char>, Seq<u8>)>,
    pending: Seq<ComparisonView>,
    filter: Option<Seq<Seq<char>>>,
    visited: Seq<Seq<char>>,
    x: Seq<char>,
)
    requires
        visited.contains(x),
    ensures
        run_pending(name, act_root, exp_root, diff_root, store, pending, filter, visited).2
            .contains(x),
    decreases pending.len(),
{
    if pending.len() != 0 {
        let c = pending[0];
        if !filter_allows(filter, c.path) || visited.contains(c.path) {
            lemma_visited_monotone(
                name, act_root, exp_root, diff_root, store,
                pending.drop_first(), filter, visited, x,
            );
        } else {
            let i = choose|i: int| 0 <= i < visited.len() && visited[i] == x;
            assert(visited.push(c.path)[i] == x);
            let step = eval_comparison(name, c, act_root, exp_root, diff_root, store);
            lemma_visited_monotone(
                name, act_root, exp_root, diff_root, step.1,
                pending.drop_first(), filter, visited.push(c.path), x,
            );
        }
    }
}

proof fn lemma_unvisited_count_zero(
    name: Seq<char>,
    act_root: Seq<char>,
    exp_root: Seq<char>,
    diff_root: Seq<char>,
    store: Seq<(Seq<char>, Seq<u8>)>,
    pending: Seq<ComparisonView>,
    filter: Option<Seq<Seq<char>>>,
    visited: Seq<Seq<char>>,
    f: Seq<char>,
)
    requires
        !run_pending(name, act_root, exp_root, diff_root, store, pending, filter, visited).2
            .contains(f),
    ensures
        count_for_file(
            run_pending(name, act_root, exp_root, diff_root, store, pending, filter, visited).0,
            f,
        ) == 0,
    decreases pending.len(),
{
    if pending.len() == 0 {
        assert(count_for_file(Seq::<VerdictView>::empty(), f) == 0);
    } else {
        let c = pending[0];
        if !filter_allows(filter, c.path) || visited.contains(c.path) {
            lemma_unvisited_count_zero(
                name, act_root, exp_root, diff_root, store,
                pending.drop_first(), filter, visited, f,
            );
        } else {
            let step = eval_comparison(name, c, act_root, exp_root, diff_root, store);
            let vis1 = visited.push(c.path);
            assert(vis1[visited.len() as int] == c.path);
            assert(vis1.contains(c.path));
            lemma_visited_monotone(
                name, act_root, exp_root, diff_root, step.1,
                pending.drop_first(), filter, vis1, c.path,
            );
            assert(f != c.path);
            lemma_eval_count(name, c, act_root, exp_root, diff_root, store, f);
            lemma_unvisited_count_zero(
                name, act_root, exp_root, diff_root, step.1,
                pending.drop_first(), filter, vis1, f,
            );
            lemma_count_concat(
                step.0,
                run_pending(
                    name, act_root, exp_root, diff_root, step.1,
                    pending.drop_first(), filter, vis1,
                ).0,
                f,
            );
        }
    }
}

proof fn lemma_run_pending_wf(
    name: Seq<char>,
    act_root: Seq<char>,
    exp_root: Seq<char>,
    diff_root: Seq<char>,
    store: Seq<(Seq<char>, Seq<u8>)>,
    pending: Seq<ComparisonView>,
    filter: Option<Seq<Seq<char>>>,
    visited: Seq<Seq<char>>,
)
    requires
        crate::filesystem::store_wf(store),
    ensures
        crate::filesystem::store_wf(
            run_pending(name, act_root, exp_root, diff_root, store, pending, filter, visited).1,
        ),
    decreases pending.len(),
{
    if pending.len() != 0 {
        let c = pending[0];
        if !filter_allows(filter, c.path) || visited.contains(c.path) {
            lemma_run_pending_wf(
                name, act_root, exp_root, diff_root, store,
                pending.drop_first(), filter, visited,
            );
        } else {
            let step = eval_comparison(name, c, act_root, exp_root, diff_root, store);
            lemma_eval_wf(name, c, act_root, exp_root, diff_root, store);
            lemma_run_pending_wf(
                name, act_root, exp_root, diff_root, step.1,
                pending.drop_first(), filter, visited.push(c.path),
            );
        }
    }
}

proof fn lemma_sweep_count(
    name: Seq<char>,
    act_root: Seq<char>,
    exp_root: Seq<char>,
    store: Seq<(Seq<char>, Seq<u8>)>,
    files: Seq<Seq<char>>,
    filter: Option<Seq<Seq<char>>>,
    visited: Seq<Seq<char>>,
    f: Seq<char>,
)
    requires
        files.no_duplicates(),
    ensures
        count_for_file(
            orphan_sweep(name, act_root, exp_root, store, files, filter, visited),
            f,
        ) == if files.contains(f) && filter_allows(filter, f) && !visited.contains(f)
            && !store_has(store, join_view(act_root, f)) {
            1nat
        } else {
            0nat
        },
    decreases files.len(),
{
    if files.len() == 0 {
        assert(count_for_file(Seq::<VerdictView>::empty(), f) == 0);
        assert(!files.contains(f));
    } else {
        let f0 = files[0];
        let rest = files.drop_first();
        assert forall|a: int, b: int|
            0 <= a < b < rest.len() implies #[trigger] rest[a] != #[trigger] rest[b] by {
            assert(rest[a] == files[a + 1]);
            assert(rest[b] == files[b + 1]);
        }
        lemma_sweep_count(name, act_root, exp_root, store, rest, filter, visited, f);
        let sw_rest = orphan_sweep(name, act_root, exp_root, store, rest, filter, visited);
        let emitted = filter_allows(filter, f0) && !visited.contains(f0) && !store_has(
            store,
            join_view(act_root, f0),
        );
        if files.contains(f) {
            let i = choose|i: int| 0 <= i < files.len() && files[i] == f;
            if i > 0 {
                assert(rest[i - 1] == f);
            }
        }
        if rest.contains(f) {
            let i = choose|i: int| 0 <= i < rest.len() && rest[i] == f;
            assert(files[i + 1] == f);
        }
        if f0 == f && rest.contains(f) {
            let i = choose|i: int| 0 <= i < rest.len() && rest[i] == f;
            assert(files[i + 1] == files[0]);
            assert(false);
        }
        if emitted {
            let vv = vv_actual_not_found(
                name, f0, join_view(act_root, f0), join_view(exp_root, f0),
            );
            lemma_count_concat(seq![vv], sw_rest, f);
            assert(seq![vv].drop_first() =~= Seq::<VerdictView>::empty());
            assert(count_for_file(Seq::<VerdictView>::empty(), f) == 0);
            assert(count_for_file(seq![vv], f) == if f0 == f { 1nat } else { 0nat });
        }
    }
}

proof fn lemma_run_pending_dup(
    name: Seq<char>,
    act_root: Seq<char>,
    exp_root: Seq<char>,
    diff_root: Seq<char>,
    store: Seq<(Seq<char>, Seq<u8>)>,
    pending: Seq<ComparisonView>,
    c: ComparisonView,
    filter: Option<Seq<Seq<char>>>,
    visited: Seq<Seq<char>>,
)
    requires
        (exists|j: int| 0 <= j < pending.len() && (#[trigger] pending[j]).path == c.path)
            || visited.contains(c.path) || !filter_allows(filter, c.path),
    ensures
        run_pending(name, act_root, exp_root, diff_root, store, pending.push(c), filter, visited)
            == run_pending(name, act_root, exp_root, diff_root, store, pending, filter, visited),
    decreases pending.len(),
{
    if pending.len() == 0 {
        assert(pending.push(c)[0] == c);
        assert(visited.contains(c.path) || !filter_allows(filter, c.path));
        assert(pending.push(c).drop_first() =~= Seq::<ComparisonView>::empty());
        assert(run_pending(
            name, act_root, exp_root, diff_root, store,
            Seq::<ComparisonView>::empty(), filter, visited,
        ) == (Seq::<VerdictView>::empty(), store, visited));
    } else {
        let p0 = pending[0];
        let rest = pending.drop_first();
        assert(pending.push(c)[0] == p0);
        assert(pending.push(c).drop_first() =~= rest.push(c));
        if !filter_allows(filter, p0.path) || visited.contains(p0.path) {
            if exists|j: int| 0 <= j < pending.len() && (#[trigger] pending[j]).path == c.path {
                let j = choose|j: int|
                    0 <= j < pending.len() && (#[trigger] pending[j]).path == c.path;
                if j == 0 {
                    assert(p0.path == c.path);
                } else {
                    assert(rest[j - 1] == pending[j]);
                }
            }
            lemma_run_pending_dup(
                name, act_root, exp_root, diff_root, store, rest, c, filter, visited,
            );
        } else {
            let step = eval_comparison(name, p0, act_root, exp_root, diff_root, store);
            let vis1 = visited.push(p0.path);
            if exists|j: int| 0 <= j < pending.len() && (#[trigger] pending[j]).path == c.path {
                let j = choose|j: int|
                    0 <= j < pending.len() && (#[trigger] pending[j]).path == c.path;
                if j == 0 {
                    assert(vis1[visited.len() as int] == p0.path);
                    assert(vis1.contains(c.path));
                } else {
                    assert(rest[j - 1] == pending[j]);
                }
            } else if visited.contains(c.path) {
                let i = choose|i: int| 0 <= i < visited.len() && visited[i] == c.path;
                assert(vis1[i] == c.path);
                assert(vis1.contains(c.path));
            }
            lemma_run_pending_dup(
                name, act_root, exp_root, diff_root, step.1, rest, c, filter, vis1,
            );
        }
    }
}

/// Registering a path that is already registered changes nothing: the
/// duplicate is collapsed, and validation yields the same verdicts and
/// leaves the same store behind.
pub proof fn lemma_validate_dedup(
    name: Seq<char>,
    top: Seq<char>,
    store: Seq<(Seq<char>, Seq<u8>)>,
    pending: Seq<ComparisonView>,
    c: ComparisonView,
    filter: Option<Seq<Seq<char>>>,
)
    requires
        exists|j: int| 0 <= j < pending.len() && (#[trigger] pending[j]).path == c.path,
    ensures
        validate_spec(name, top, store, pending.push(c), filter) == validate_spec(
            name,
            top,
            store,
            pending,
            filter,
        ),
{
    lemma_run_pending_dup(
        name,
        actual_root(top, name),
        expected_root(top, name),
        diff_root(top, name),
        store,
        pending,
        c,
        filter,
        Seq::<Seq<char>>::empty(),
    );
}

/// An expected artifact that no registration covered, that passes the
/// filter and whose actual counterpart is absent is reported exactly
/// once, and not by the registration phase: its one verdict stands in
/// the sweep appended after the registered comparisons' verdicts.
pub proof fn lemma_orphan_reported_once(
    name: Seq<char>,
    top: Seq<char>,
    store: Seq<(Seq<char>, Seq<u8>)>,
    pending: Seq<ComparisonView>,
    filter: Option<Seq<Seq<char>>>,
    f: Seq<char>,
)
    requires
        crate::filesystem::store_wf(store),
        ({
            let step = run_pending(
                name,
                actual_root(top, name),
                expected_root(top, name),
                diff_root(top, name),
                store,
                pending,
                filter,
                Seq::<Seq<char>>::empty(),
            );
            &&& store_files_under(step.1, expected_root(top, name)).contains(f)
            &&& filter_allows(filter, f)
            &&& !step.2.contains(f)
            &&& !store_has(step.1, join_view(actual_root(top, name), f))
        }),
    ensures
        count_for_file(validate_spec(name, top, store, pending, filter).0, f) == 1,
        count_for_file(
            run_pending(
                name,
                actual_root(top, name),
                expected_root(top, name),
                diff_root(top, name),
                store,
                pending,
                filter,
                Seq::<Seq<char>>::empty(),
            ).0,
            f,
        ) == 0,
{
    let act = actual_root(top, name);
    let exp = expected_root(top, name);
    let dif = diff_root(top, name);
    let vis0 = Seq::<Seq<char>>::empty();
    let step = run_pending(name, act, exp, dif, store, pending, filter, vis0);
    lemma_run_pending_wf(name, act, exp, dif, store, pending, filter, vis0);
    crate::filesystem::lemma_files_under_unique(step.1, exp);
    lemma_sweep_count(
        name,
        act,
        exp,
        step.1,
        store_files_under(step.1, exp),
        filter,
        step.2,
        f,
    );
    lemma_unvisited_count_zero(name, act, exp, dif, store, pending, filter, vis0, f);
    lemma_count_concat(
        step.0,
        orphan_sweep(name, act, exp, step.1, store_files_under(step.1, exp), filter, step.2),
        f,
    );
}

/// Creates a fresh namespace for one test run: the top store handle,
/// an empty backing store, a provider rooted at the test's actual tree,
/// and an empty registry.
pub fn difftest_prepare(name: &str) -> (r: (FakeFileSystem, FsStore, Provider, Registry))
    requires
        !is_absolute_path(name@),
    ensures
        r.0.root_view() == "/"@,
        r.1@ == Seq::<(Seq<char>, Seq<u8>)>::empty(),
        r.1.wf(),
        r.2.top_root() == "/"@,
        r.2.fs_root() == actual_root("/"@, name@),
        r.2.offset_view() == Seq::<char>::empty(),
        r.3@ == Seq::<ComparisonView>::empty(),
{
    proof {
        reveal_strlit("actual");
    }
    let top = FakeFileSystem::new();
    let store = FsStore::new();
    let act = top.subsystem("actual").subsystem(name);
    let provider = Provider::new(top.duplicate(), act);
    let registry = Registry::new();
    (top, store, provider, registry)
}

/// Validates a prepared run with every declared artifact admitted.
pub fn difftest_validate(
    name: &str,
    fs: FakeFileSystem,
    store: &mut FsStore,
    provider: &Provider,
    registry: &mut Registry,
) -> (out: Vec<Verdict>)
    requires
        old(store).wf(),
        !is_absolute_path(name@),
    ensures
        verdict_views(out@) == validate_spec(
            name@,
            fs.root_view(),
            old(store)@,
            old(registry)@,
            Option::None,
        ).0,
        final(store)@ == validate_spec(
            name@,
            fs.root_view(),
            old(store)@,
            old(registry)@,
            Option::None,
        ).1,
        final(store).wf(),
        final(registry)@ == Seq::<ComparisonView>::empty(),
{
    let filetypes: Option<Vec<String>> = Option::None;
    validate(name, fs, store, provider, registry, &filetypes)
}

} // verus!
