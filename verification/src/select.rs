//! Candidate selection: among the expansions whose abbreviation matches a
//! captured one, grouped candidates are tried before ungrouped ones (stably);
//! an active group, when set, picks the first candidate that is ungrouped or
//! bound to it; otherwise a grouped candidate is chosen when its group lists
//! the focused application for the current platform, and an ungrouped one
//! unconditionally.

use vstd::prelude::*;
use crate::settings::{AppSettings, ExpansionModel, Group, GroupModel};
use crate::settings::SettingsModel;
use crate::text::{chars_eq, chars_of, str_eq};

verus! {

/// The grouped candidates for `abbr` among `exps[i..]`, in order.
pub open spec fn grouped_from(exps: Seq<ExpansionModel>, abbr: Seq<char>, i: int) -> Seq<
    ExpansionModel,
>
    decreases exps.len() - i,
{
    if i < 0 || i >= exps.len() {
        Seq::<ExpansionModel>::empty()
    } else if exps[i].abbr == abbr && exps[i].group is Some {
        seq![exps[i]] + grouped_from(exps, abbr, i + 1)
    } else {
        grouped_from(exps, abbr, i + 1)
    }
}

/// The ungrouped candidates for `abbr` among `exps[i..]`, in order.
pub open spec fn ungrouped_from(exps: Seq<ExpansionModel>, abbr: Seq<char>, i: int) -> Seq<
    ExpansionModel,
>
    decreases exps.len() - i,
{
    if i < 0 || i >= exps.len() {
        Seq::<ExpansionModel>::empty()
    } else if exps[i].abbr == abbr && exps[i].group is None {
        seq![exps[i]] + ungrouped_from(exps, abbr, i + 1)
    } else {
        ungrouped_from(exps, abbr, i + 1)
    }
}

/// The candidates for `abbr`, grouped ones first, both stably ordered.
pub open spec fn sorted_candidates(exps: Seq<ExpansionModel>, abbr: Seq<char>) -> Seq<
    ExpansionModel,
> {
    grouped_from(exps, abbr, 0) + ungrouped_from(exps, abbr, 0)
}

/// The models of the expansions that `idx` indexes in `dv`.
pub open spec fn models_of(dv: Seq<ExpansionModel>, idx: Seq<usize>) -> Seq<ExpansionModel> {
    Seq::new(idx.len(), |t: int| dv[idx[t] as int])
}

/// The first candidate from `i` on that is ungrouped or bound to `active`.
pub open spec fn active_pick_from(
    cands: Seq<ExpansionModel>,
    active: Seq<char>,
    i: int,
) -> Option<ExpansionModel>
    decreases cands.len() - i,
{
    if i < 0 || i >= cands.len() {
        None
    } else if cands[i].group is None || cands[i].group == Some(active) {
        Some(cands[i])
    } else {
        active_pick_from(cands, active, i + 1)
    }
}

/// The first group from `i` on with the given id.
pub open spec fn find_group_from(groups: Seq<GroupModel>, id: Seq<char>, i: int) -> Option<
    GroupModel,
>
    decreases groups.len() - i,
{
    if i < 0 || i >= groups.len() {
        None
    } else if groups[i].id == id {
        Some(groups[i])
    } else {
        find_group_from(groups, id, i + 1)
    }
}

/// Whether the group lists the process `path` for platform `os`.
pub open spec fn app_match(g: GroupModel, os: Seq<char>, path: Seq<char>) -> bool {
    exists|k: int| 0 <= k < g.apps.len() && g.apps[k].os == os && g.apps[k].path == path
}

/// The first candidate from `i` on that applies to the focused window: an
/// ungrouped one unconditionally, a grouped one when its group exists and
/// lists the focused application.
pub open spec fn window_pick_from(
    cands: Seq<ExpansionModel>,
    groups: Seq<GroupModel>,
    os: Seq<char>,
    path: Seq<char>,
    i: int,
) -> Option<ExpansionModel>
    decreases cands.len() - i,
{
    if i < 0 || i >= cands.len() {
        None
    } else {
        match cands[i].group {
            None => Some(cands[i]),
            Some(gid) => match find_group_from(groups, gid, 0) {
                None => window_pick_from(cands, groups, os, path, i + 1),
                Some(g) => if app_match(g, os, path) {
                    Some(cands[i])
                } else {
                    window_pick_from(cands, groups, os, path, i + 1)
                },
            },
        }
    }
}

/// The expansion chosen for `abbr` under `cfg` with the focused process
/// `path` on platform `os`, if any.
pub open spec fn select_expansion_model(
    cfg: SettingsModel,
    abbr: Seq<char>,
    os: Seq<char>,
    path: Seq<char>,
) -> Option<ExpansionModel> {
    let cands = sorted_candidates(cfg.expansions, abbr);
    if cands.len() == 0 {
        None
    } else {
        match cfg.active_group {
            Some(ag) => match active_pick_from(cands, ag, 0) {
                Some(e) => Some(e),
                None => window_pick_from(cands, cfg.groups, os, path, 0),
            },
            None => window_pick_from(cands, cfg.groups, os, path, 0),
        }
    }
}

/// Law (group priority): when no active group is set and two candidates
/// share the abbreviation, one grouped and one ungrouped, the grouped one is
/// selected exactly when its group lists the focused application for the
/// platform; otherwise the ungrouped one is selected.
pub proof fn lemma_group_priority(
    cfg: SettingsModel,
    abbr: Seq<char>,
    os: Seq<char>,
    path: Seq<char>,
    eg: ExpansionModel,
    eu: ExpansionModel,
    gid: Seq<char>,
    g: GroupModel,
)
    requires
        cfg.active_group is None,
        grouped_from(cfg.expansions, abbr, 0) == seq![eg],
        ungrouped_from(cfg.expansions, abbr, 0) == seq![eu],
        eg.group == Some(gid),
        find_group_from(cfg.groups, gid, 0) == Some(g),
    ensures
        app_match(g, os, path) ==> select_expansion_model(cfg, abbr, os, path) == Some(eg),
        !app_match(g, os, path) ==> select_expansion_model(cfg, abbr, os, path) == Some(eu),
{
    let cands = sorted_candidates(cfg.expansions, abbr);
    assert(cands.len() == 2);
    assert(cands[0] == eg);
    assert(cands[1] == eu);
    lemma_grouped_are_grouped(cfg.expansions, abbr, 0);
    lemma_ungrouped_are_ungrouped(cfg.expansions, abbr, 0);
    assert(eu.group is None);
    if app_match(g, os, path) {
        assert(window_pick_from(cands, cfg.groups, os, path, 0) == Some(eg));
    } else {
        assert(window_pick_from(cands, cfg.groups, os, path, 1) == Some(eu));
        assert(window_pick_from(cands, cfg.groups, os, path, 0) == Some(eu));
    }
}

/// Every candidate `grouped_from` yields carries a group.
proof fn lemma_grouped_are_grouped(exps: Seq<ExpansionModel>, abbr: Seq<char>, i: int)
    ensures
        forall|t: int| 0 <= t < grouped_from(exps, abbr, i).len() ==> (#[trigger] grouped_from(
            exps,
            abbr,
            i,
        )[t]).group is Some && grouped_from(exps, abbr, i)[t].abbr == abbr,
    decreases exps.len() - i,
{
    if 0 <= i < exps.len() {
        lemma_grouped_are_grouped(exps, abbr, i + 1);
    }
}

/// Every candidate `ungrouped_from` yields is ungrouped.
proof fn lemma_ungrouped_are_ungrouped(exps: Seq<ExpansionModel>, abbr: Seq<char>, i: int)
    ensures
        forall|t: int| 0 <= t < ungrouped_from(exps, abbr, i).len() ==> (
        #[trigger] ungrouped_from(exps, abbr, i)[t]).group is None && ungrouped_from(
            exps,
            abbr,
            i,
        )[t].abbr == abbr,
    decreases exps.len() - i,
{
    if 0 <= i < exps.len() {
        lemma_ungrouped_are_ungrouped(exps, abbr, i + 1);
    }
}

/// Whether the group lists the process `path` on platform `os`.
#[verifier::loop_isolation(false)]
fn app_match_exec(g: &Group, os: &str, path: &str) -> (r: bool)
    ensures
        r == app_match(g@, os@, path@),
{
    let mut k: usize = 0;
    while k < g.apps.len()
        invariant
            k <= g.apps@.len(),
            forall|j: int| 0 <= j < k ==> !(g@.apps[j].os == os@ && g@.apps[j].path == path@),
        decreases g.apps@.len() - k,
    {
        let os_hit = str_eq(g.apps[k].os.as_str(), os);
        let path_hit = str_eq(g.apps[k].path.as_str(), path);
        proof {
            assert(g@.apps[k as int] == g.apps@[k as int]@);
        }
        if os_hit && path_hit {
            proof {
                assert(app_match(g@, os@, path@));
            }
            return true;
        }
        k = k + 1;
    }
    false
}

/// The first group of `groups` with the given id, as an index.
#[verifier::loop_isolation(false)]
fn find_group_exec(groups: &Vec<Group>, id: &str) -> (r: Option<usize>)
    ensures
        match r {
            Some(k) => k < groups@.len() && find_group_from(groups.deep_view(), id@, 0) == Some(
                groups.deep_view()[k as int],
            ),
            None => find_group_from(groups.deep_view(), id@, 0) is None,
        },
{
    let ghost dv = groups.deep_view();
    let mut k: usize = 0;
    while k < groups.len()
        invariant
            k <= groups@.len(),
            dv == groups.deep_view(),
            dv.len() == groups@.len(),
            find_group_from(dv, id@, 0) == find_group_from(dv, id@, k as int),
        decreases groups@.len() - k,
    {
        let hit = str_eq(groups[k].id.as_str(), id);
        proof {
            assert(dv[k as int] == groups@[k as int]@);
        }
        if hit {
            return Some(k);
        }
        k = k + 1;
    }
    None
}

/// Walks the candidates in order and picks the first that applies to the
/// focused window, exactly as `window_pick_from` says.
#[verifier::loop_isolation(false)]
fn pick_by_window(
    cfg: &AppSettings,
    cand_idx: &Vec<usize>,
    Ghost(cand_models): Ghost<Seq<ExpansionModel>>,
    os: &str,
    path: &str,
) -> (r: Option<usize>)
    requires
        forall|u: int| 0 <= u < cand_idx@.len() ==> #[trigger] cand_idx@[u]
            < cfg.expansions@.len(),
        cand_models == models_of(cfg.expansions.deep_view(), cand_idx@),
    ensures
        match r {
            Some(k) => k < cfg.expansions@.len() && window_pick_from(
                cand_models,
                cfg@.groups,
                os@,
                path@,
                0,
            ) == Some(cfg.expansions.deep_view()[k as int]),
            None => window_pick_from(cand_models, cfg@.groups, os@, path@, 0) is None,
        },
{
    let ghost dv = cfg.expansions.deep_view();
    let ghost gdv = cfg@.groups;
    let m = cand_idx.len();
    let mut t: usize = 0;
    while t < m
        invariant
            t <= m,
            m == cand_idx@.len(),
            window_pick_from(cand_models, gdv, os@, path@, 0) == window_pick_from(
                cand_models,
                gdv,
                os@,
                path@,
                t as int,
            ),
        decreases m - t,
    {
        let e = &cfg.expansions[cand_idx[t]];
        proof {
            assert(cand_models[t as int] == dv[cand_idx@[t as int] as int]);
            let ci = cand_idx@[t as int] as int;
            assert(dv[ci] == cfg.expansions@[ci]@);
        }
        match &e.group {
            None => {
                return Some(cand_idx[t]);
            },
            Some(gid) => {
                match &cfg.groups {
                    Some(gs) => {
                        proof {
                            assert(gdv == gs.deep_view());
                        }
                        match find_group_exec(gs, gid.as_str()) {
                            Some(gk) => {
                                let matched = app_match_exec(&gs[gk], os, path);
                                proof {
                                    assert(gs.deep_view()[gk as int] == gs@[gk as int]@);
                                }
                                if matched {
                                    return Some(cand_idx[t]);
                                }
                            },
                            None => {},
                        }
                    },
                    None => {
                        proof {
                            assert(gdv =~= Seq::<GroupModel>::empty());
                            assert(find_group_from(gdv, gid@, 0) is None);
                        }
                    },
                }
            },
        }
        t = t + 1;
    }
    None
}

/// Selects the expansion for `abbr` under `cfg`, given the platform name and
/// the focused process path. The result indexes `cfg.expansions`, and the
/// selected expansion is exactly the one `select_expansion_model` names.
#[verifier::loop_isolation(false)]
pub fn select_expansion(cfg: &AppSettings, abbr: &Vec<char>, os: &str, path: &str) -> (r: Option<
    usize,
>)
    ensures
        match r {
            Some(k) => k < cfg.expansions@.len() && select_expansion_model(
                cfg@,
                abbr@,
                os@,
                path@,
            ) == Some(cfg.expansions.deep_view()[k as int]),
            None => select_expansion_model(cfg@, abbr@, os@, path@) is None,
        },
{
    let ghost dv = cfg.expansions.deep_view();
    let n = cfg.expansions.len();
    let mut cand_idx: Vec<usize> = Vec::new();
    proof {
        assert(models_of(dv, cand_idx@) =~= Seq::<ExpansionModel>::empty());
    }

    let mut j: usize = 0;
    while j < n
        invariant
            j <= n,
            dv == cfg.expansions.deep_view(),
            dv.len() == cfg.expansions@.len() == n,
            forall|t: int| 0 <= t < cand_idx@.len() ==> #[trigger] cand_idx@[t] < n,
            grouped_from(dv, abbr@, 0) == models_of(dv, cand_idx@) + grouped_from(
                dv,
                abbr@,
                j as int,
            ),
        decreases n - j,
    {
        let abbr_chars = chars_of(cfg.expansions[j].abbr.as_str());
        let is_cand = chars_eq(&abbr_chars, abbr) && cfg.expansions[j].group.is_some();
        proof {
            assert(dv[j as int] == cfg.expansions@[j as int]@);
        }
        if is_cand {
            let ghost old_idx = cand_idx@;
            cand_idx.push(j);
            proof {
                assert(models_of(dv, cand_idx@) =~= models_of(dv, old_idx).push(dv[j as int]));
                assert(grouped_from(dv, abbr@, j as int) =~= seq![dv[j as int]] + grouped_from(
                    dv,
                    abbr@,
                    j + 1,
                ));
                assert(models_of(dv, old_idx) + grouped_from(dv, abbr@, j as int) =~= models_of(
                    dv,
                    cand_idx@,
                ) + grouped_from(dv, abbr@, j + 1));
            }
        }
        j = j + 1;
    }
    proof {
        assert(grouped_from(dv, abbr@, n as int) =~= Seq::<ExpansionModel>::empty());
        assert(models_of(dv, cand_idx@) + grouped_from(dv, abbr@, n as int) =~= models_of(
            dv,
            cand_idx@,
        ));
        assert(models_of(dv, cand_idx@) == grouped_from(dv, abbr@, 0));
    }

    let mut j: usize = 0;
    while j < n
        invariant
            j <= n,
            dv == cfg.expansions.deep_view(),
            dv.len() == cfg.expansions@.len() == n,
            forall|t: int| 0 <= t < cand_idx@.len() ==> #[trigger] cand_idx@[t] < n,
            sorted_candidates(dv, abbr@) == models_of(dv, cand_idx@) + ungrouped_from(
                dv,
                abbr@,
                j as int,
            ),
        decreases n - j,
    {
        let abbr_chars = chars_of(cfg.expansions[j].abbr.as_str());
        let is_cand = chars_eq(&abbr_chars, abbr) && cfg.expansions[j].group.is_none();
        proof {
            assert(dv[j as int] == cfg.expansions@[j as int]@);
        }
        if is_cand {
            let ghost old_idx = cand_idx@;
            cand_idx.push(j);
            proof {
                assert(models_of(dv, cand_idx@) =~= models_of(dv, old_idx).push(dv[j as int]));
                assert(ungrouped_from(dv, abbr@, j as int) =~= seq![dv[j as int]] + ungrouped_from(
                    dv,
                    abbr@,
                    j + 1,
                ));
                assert(models_of(dv, old_idx) + ungrouped_from(dv, abbr@, j as int) =~= models_of(
                    dv,
                    cand_idx@,
                ) + ungrouped_from(dv, abbr@, j + 1));
            }
        }
        j = j + 1;
    }
    let ghost cand_models = models_of(dv, cand_idx@);
    proof {
        assert(ungrouped_from(dv, abbr@, n as int) =~= Seq::<ExpansionModel>::empty());
        assert(cand_models + ungrouped_from(dv, abbr@, n as int) =~= cand_models);
        assert(cand_models == sorted_candidates(dv, abbr@));
    }

    if cand_idx.len() == 0 {
        proof {
            assert(cand_models =~= Seq::<ExpansionModel>::empty());
        }
        return None;
    }

    // An active group, when set, prefers candidates that are ungrouped or
    // bound to it; when none qualifies, the focused window decides.
    match &cfg.active_group {
        Some(ag) => {
            let m = cand_idx.len();
            let mut t: usize = 0;
            while t < m
                invariant
                    t <= m,
                    m == cand_idx@.len(),
                    dv == cfg.expansions.deep_view(),
                    dv.len() == cfg.expansions@.len() == n,
                    forall|u: int| 0 <= u < cand_idx@.len() ==> #[trigger] cand_idx@[u] < n,
                    cand_models == models_of(dv, cand_idx@),
                    active_pick_from(cand_models, ag@, 0) == active_pick_from(
                        cand_models,
                        ag@,
                        t as int,
                    ),
                decreases m - t,
            {
                let e = &cfg.expansions[cand_idx[t]];
                proof {
                    assert(cand_models[t as int] == dv[cand_idx@[t as int] as int]);
                    let ci = cand_idx@[t as int] as int;
                    assert(dv[ci] == cfg.expansions@[ci]@);
                }
                let picked = match &e.group {
                    None => true,
                    Some(g) => str_eq(g.as_str(), ag.as_str()),
                };
                if picked {
                    return Some(cand_idx[t]);
                }
                t = t + 1;
            }
            pick_by_window(cfg, &cand_idx, Ghost(cand_models), os, path)
        },
        None => pick_by_window(cfg, &cand_idx, Ghost(cand_models), os, path),
    }
}

} // verus!
