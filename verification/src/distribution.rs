//! The daily distribution: combines per-project view and download
//! counts into weights, picks the day's rate from the 28-day budget
//! with the weekend bonus, splits each project's share among its team
//! by contribution, and plans the ledger entries of one idempotent
//! run.

use vstd::prelude::*;
use std::collections::HashMap;
use vstd::arithmetic::div_mod::{
    lemma_div_is_ordered, lemma_div_pos_is_pos, lemma_fundamental_div_mod, lemma_mod_bound,
};
use crate::money::Money;

verus! {

/// One aggregate row from the analytics store: a project and its
/// event count over the target day.
#[derive(Clone, Copy, PartialEq, Eq, Structural, Debug)]
pub struct TrafficRow {
    pub project_id: u64,
    pub count: u64,
}

/// One accepted team membership of a monetized project.
#[derive(Clone, Copy, PartialEq, Eq, Structural, Debug)]
pub struct TeamMemberRow {
    pub project_id: u64,
    pub user_id: u64,
    pub split: Money,
}

/// A project's team for one run, in first-seen order.
pub struct ProjectTeam {
    pub project_id: u64,
    pub members: Vec<(u64, Money)>,
}

impl View for ProjectTeam {
    type V = (u64, Seq<(u64, Money)>);

    open spec fn view(&self) -> (u64, Seq<(u64, Money)>) {
        (self.project_id, self.members@)
    }
}

/// The models of a list of teams.
pub open spec fn team_models(s: Seq<ProjectTeam>) -> Seq<(u64, Seq<(u64, Money)>)> {
    Seq::new(s.len(), |i: int| s[i]@)
}

/// One planned ledger entry: what one member earns from one project.
#[derive(Clone, Copy, PartialEq, Eq, Structural, Debug)]
pub struct PayoutEntry {
    pub user_id: u64,
    pub project_id: u64,
    pub amount: Money,
}

/// What one run decides: a run for a day that already holds records
/// is a no-op; otherwise the entries to commit in one transaction.
#[derive(Debug)]
pub enum RunPlan {
    AlreadyProcessed,
    Commit { entries: Vec<PayoutEntry> },
}

// ---------------------------------------------------------------
// Calendar
// ---------------------------------------------------------------

/// Day of the week of a day number counted from the unix epoch,
/// `0` Sunday through `6` Saturday; day `0` was a Thursday.
pub open spec fn spec_weekday(day: int) -> int {
    (day + 4) % 7
}

/// Saturdays and Sundays earn the weekend rate.
pub open spec fn spec_is_weekend(day: int) -> bool {
    spec_weekday(day) == 0 || spec_weekday(day) == 6
}

/// Decides whether a day number falls on a weekend.
pub fn is_weekend(day: i64) -> (r: bool)
    requires
        0 <= day,
        day + 4 <= i64::MAX,
    ensures
        r == spec_is_weekend(day as int),
{
    let d = (day + 4) % 7;
    d == 0 || d == 6
}

// ---------------------------------------------------------------
// Rates
// ---------------------------------------------------------------

/// The weekday rate: the budget over `20 + 1.25 * 8 = 30` day-shares.
pub open spec fn spec_weekday_units(budget_units: int) -> int {
    budget_units / 30
}

/// The weekend rate: the weekday rate with the 1.25 bonus.
pub open spec fn spec_weekend_units(budget_units: int) -> int {
    spec_weekday_units(budget_units) * 5 / 4
}

/// The rate a given day earns.
pub open spec fn spec_rate(budget_units: int, day: int) -> int {
    if spec_is_weekend(day) {
        spec_weekend_units(budget_units)
    } else {
        spec_weekday_units(budget_units)
    }
}

/// The weekday and weekend rates of a 28-day budget.
pub fn day_rates(budget: Money) -> (r: (Money, Money))
    ensures
        r.0.units == spec_weekday_units(budget.units as int),
        r.1.units == spec_weekend_units(budget.units as int),
{
    let wd = budget.div_int(30);
    proof {
        lemma_div_is_ordered(budget.units as int, u64::MAX as int, 30);
        lemma_div_is_ordered(wd.units as int * 5, u64::MAX as int, 4);
    }
    let we = wd.mul_div(5, 4);
    (wd, we)
}

/// The rate for one target day.
pub fn rate_for_day(budget: Money, day: i64) -> (r: Money)
    requires
        0 <= day,
        day + 4 <= i64::MAX,
    ensures
        r.units == spec_rate(budget.units as int, day as int),
{
    let (wd, we) = day_rates(budget);
    if is_weekend(day) {
        we
    } else {
        wd
    }
}

/// Law (money conservation): twenty weekdays and eight weekend days
/// together pay out the whole budget to within 38 micro-units — far
/// below one cent, the minimal currency unit.
pub proof fn lemma_budget_conservation(budget_units: int)
    requires
        0 <= budget_units,
    ensures
        20 * spec_weekday_units(budget_units) + 8 * spec_weekend_units(budget_units)
            <= budget_units,
        budget_units - (20 * spec_weekday_units(budget_units) + 8 * spec_weekend_units(
            budget_units,
        )) < 38,
{
    let wd = budget_units / 30;
    let we = wd * 5 / 4;
    lemma_fundamental_div_mod(budget_units, 30);
    lemma_mod_bound(budget_units, 30);
    lemma_fundamental_div_mod(wd * 5, 4);
    lemma_mod_bound(wd * 5, 4);
}

// ---------------------------------------------------------------
// Weights
// ---------------------------------------------------------------

/// Whether any aggregate row speaks of the project.
pub open spec fn contains_project(rows: Seq<TrafficRow>, p: u64) -> bool {
    exists|i: int| 0 <= i < rows.len() && rows[i].project_id == p
}

/// Each project appears at most once, as a grouped aggregate reports.
pub open spec fn distinct_projects(rows: Seq<TrafficRow>) -> bool {
    forall|i: int, j: int|
        0 <= i < j < rows.len() ==> (#[trigger] rows[i]).project_id != (
        #[trigger] rows[j]).project_id
}

proof fn lemma_count_absent(rows: Seq<TrafficRow>, p: u64)
    requires
        !contains_project(rows, p),
    ensures
        count_for(rows, p) == 0,
    decreases rows.len(),
{
    if rows.len() > 0 {
        assert(rows.last() == rows[rows.len() - 1]);
        assert(!contains_project(rows.drop_last(), p)) by {
            if contains_project(rows.drop_last(), p) {
                let k = choose|k: int|
                    0 <= k < rows.drop_last().len() && (#[trigger] rows.drop_last()[k]).project_id
                        == p;
                assert(rows[k].project_id == p);
            }
        }
        lemma_count_absent(rows.drop_last(), p);
    }
}

/// The count the rows give a project; when several rows carry the
/// same project, the last one wins, as collecting into a keyed map
/// makes it.
pub open spec fn count_for(rows: Seq<TrafficRow>, p: u64) -> int
    decreases rows.len(),
{
    if rows.len() == 0 {
        0
    } else if rows.last().project_id == p {
        rows.last().count as int
    } else {
        count_for(rows.drop_last(), p)
    }
}

/// The weight map of one day: for every project that appears in
/// either aggregate, its view count plus its download count.
pub open spec fn weight_map_of(views: Seq<TrafficRow>, downloads: Seq<TrafficRow>) -> Map<
    u64,
    u64,
> {
    Map::new(
        |p: u64| contains_project(views, p) || contains_project(downloads, p),
        |p: u64| (count_for(views, p) + count_for(downloads, p)) as u64,
    )
}

proof fn lemma_count_for_bound(rows: Seq<TrafficRow>, p: u64, bound: int)
    requires
        forall|i: int| 0 <= i < rows.len() ==> (#[trigger] rows[i]).count <= bound,
        0 <= bound,
    ensures
        0 <= count_for(rows, p) <= bound,
    decreases rows.len(),
{
    if rows.len() > 0 {
        lemma_count_for_bound(rows.drop_last(), p, bound);
        assert(rows.last() == rows[rows.len() - 1]);
    }
}

/// Builds the weight map: every view row keyed by project, then every
/// download row added onto it.
pub fn combine_traffic(views: &Vec<TrafficRow>, downloads: &Vec<TrafficRow>) -> (m: HashMap<
    u64,
    u64,
>)
    requires
        forall|i: int| 0 <= i < views@.len() ==> (#[trigger] views@[i]).count <= u64::MAX / 2,
        forall|i: int|
            0 <= i < downloads@.len() ==> (#[trigger] downloads@[i]).count <= u64::MAX / 2,
        distinct_projects(downloads@),
    ensures
        m@ == weight_map_of(views@, downloads@),
{
    let mut m: HashMap<u64, u64> = HashMap::new();
    let nv = views.len();
    for i in 0..nv
        invariant
            nv == views@.len(),
            forall|k: int| 0 <= k < views@.len() ==> (#[trigger] views@[k]).count <= u64::MAX / 2,
            m@ =~= weight_map_of(views@.take(i as int), Seq::empty()),
    {
        let row = views[i];
        m.insert(row.project_id, row.count);
        proof {
            assert(views@.take(i as int + 1).drop_last() =~= views@.take(i as int));
            assert(views@.take(i as int + 1).last() == views@[i as int]);
            assert forall|p: u64|
                weight_map_of(views@.take(i as int + 1), Seq::empty()).contains_key(p)
                    == #[trigger] m@.contains_key(p) by {
                if p != row.project_id {
                    assert(contains_project(views@.take(i as int + 1), p) == contains_project(
                        views@.take(i as int),
                        p,
                    )) by {
                        if contains_project(views@.take(i as int + 1), p) {
                            let k = choose|k: int|
                                0 <= k < views@.take(i as int + 1).len() && (#[trigger] views@.take(
                                    i as int + 1,
                                )[k]).project_id == p;
                            assert(views@.take(i as int)[k].project_id == p);
                        }
                    }
                }
            }
            assert(m@ =~= weight_map_of(views@.take(i as int + 1), Seq::empty()));
        }
    }
    proof {
        assert(views@.take(nv as int) =~= views@);
    }
    let nd = downloads.len();
    for i in 0..nd
        invariant
            nd == downloads@.len(),
            forall|k: int| 0 <= k < views@.len() ==> (#[trigger] views@[k]).count <= u64::MAX / 2,
            forall|k: int|
                0 <= k < downloads@.len() ==> (#[trigger] downloads@[k]).count <= u64::MAX / 2,
            distinct_projects(downloads@),
            m@ =~= weight_map_of(views@, downloads@.take(i as int)),
    {
        let row = downloads[i];
        proof {
            // The project is new to the download prefix, so the map
            // still holds its view count alone.
            assert(!contains_project(downloads@.take(i as int), row.project_id)) by {
                if contains_project(downloads@.take(i as int), row.project_id) {
                    let k = choose|k: int|
                        0 <= k < downloads@.take(i as int).len() && (#[trigger] downloads@.take(
                            i as int,
                        )[k]).project_id == row.project_id;
                    assert(downloads@[k].project_id == downloads@[i as int].project_id);
                }
            }
            lemma_count_absent(downloads@.take(i as int), row.project_id);
            lemma_count_for_bound(views@, row.project_id, u64::MAX as int / 2);
        }
        let prior = match m.get(&row.project_id) {
            Some(v) => *v,
            None => {
                proof {
                    assert(!m@.contains_key(row.project_id));
                    assert(!contains_project(views@, row.project_id));
                    lemma_count_absent(views@, row.project_id);
                }
                0
            },
        };
        m.insert(row.project_id, prior + row.count);
        proof {
            assert(downloads@.take(i as int + 1).drop_last() =~= downloads@.take(i as int));
            assert(downloads@.take(i as int + 1).last() == downloads@[i as int]);
            assert forall|p: u64|
                weight_map_of(views@, downloads@.take(i as int + 1)).contains_key(p)
                    == #[trigger] m@.contains_key(p) by {
                if p != row.project_id {
                    assert(contains_project(downloads@.take(i as int + 1), p) == contains_project(
                        downloads@.take(i as int),
                        p,
                    )) by {
                        if contains_project(downloads@.take(i as int + 1), p) {
                            let k = choose|k: int|
                                0 <= k < downloads@.take(i as int + 1).len() && (#[trigger] downloads@.take(
                                    i as int + 1,
                                )[k]).project_id == p;
                            assert(downloads@.take(i as int)[k].project_id == p);
                        }
                    }
                }
            }
            assert(m@ =~= weight_map_of(views@, downloads@.take(i as int + 1)));
        }
    }
    proof {
        assert(downloads@.take(nd as int) =~= downloads@);
        assert(m@ =~= weight_map_of(views@, downloads@));
    }
    m
}

// ---------------------------------------------------------------
// Teams
// ---------------------------------------------------------------

/// The position of a project's team, scanning from `i`; `-1` when
/// none exists yet.
pub open spec fn team_index_from(
    ts: Seq<(u64, Seq<(u64, Money)>)>,
    pid: u64,
    i: int,
) -> int
    decreases ts.len() - i,
{
    if i < 0 || i >= ts.len() {
        -1
    } else if ts[i].0 == pid {
        i
    } else {
        team_index_from(ts, pid, i + 1)
    }
}

/// One membership row folded into the teams built so far: appended to
/// its project's team, or opening a new team at the end.
pub open spec fn add_team_row(
    ts: Seq<(u64, Seq<(u64, Money)>)>,
    row: TeamMemberRow,
) -> Seq<(u64, Seq<(u64, Money)>)> {
    let j = team_index_from(ts, row.project_id, 0);
    if j < 0 {
        ts.push((row.project_id, seq![(row.user_id, row.split)]))
    } else {
        ts.update(j, (ts[j].0, ts[j].1.push((row.user_id, row.split))))
    }
}

/// The teams the membership rows yield, projects in first-seen order,
/// members in row order.
pub open spec fn group_rows(rows: Seq<TeamMemberRow>) -> Seq<(u64, Seq<(u64, Money)>)>
    decreases rows.len(),
{
    if rows.len() == 0 {
        Seq::empty()
    } else {
        add_team_row(group_rows(rows.drop_last()), rows.last())
    }
}

/// Groups membership rows into teams.
pub fn group_team_rows(rows: &Vec<TeamMemberRow>) -> (r: Vec<ProjectTeam>)
    ensures
        team_models(r@) == group_rows(rows@),
{
    let mut teams: Vec<ProjectTeam> = Vec::new();
    let n = rows.len();
    for i in 0..n
        invariant
            n == rows@.len(),
            team_models(teams@) =~= group_rows(rows@.take(i as int)),
    {
        let row = rows[i];
        let ghost ts = team_models(teams@);
        let mut j: usize = 0;
        let len = teams.len();
        while j < len && teams[j].project_id != row.project_id
            invariant
                len == teams@.len(),
                j <= len,
                ts == team_models(teams@),
                team_index_from(ts, row.project_id, 0) == team_index_from(
                    ts,
                    row.project_id,
                    j as int,
                ),
            decreases len - j,
        {
            j = j + 1;
        }
        proof {
            assert(rows@.take(i as int + 1).drop_last() =~= rows@.take(i as int));
            assert(rows@.take(i as int + 1).last() == rows@[i as int]);
        }
        if j < len {
            proof {
                assert(team_index_from(ts, row.project_id, 0) == j as int);
            }
            let mut t = teams.remove(j);
            t.members.push((row.user_id, row.split));
            let ghost grown = t@;
            teams.insert(j, t);
            proof {
                assert(team_models(teams@) =~= ts.update(j as int, grown));
                assert(team_models(teams@) =~= group_rows(rows@.take(i as int + 1)));
            }
        } else {
            proof {
                assert(team_index_from(ts, row.project_id, 0) == -1);
            }
            let mut members: Vec<(u64, Money)> = Vec::new();
            members.push((row.user_id, row.split));
            let ghost fresh_members = members@;
            teams.push(ProjectTeam { project_id: row.project_id, members });
            proof {
                assert(fresh_members =~= seq![(row.user_id, row.split)]);
                assert(team_models(teams@) =~= ts.push(
                    (row.project_id, seq![(row.user_id, row.split)]),
                ));
                assert(team_models(teams@) =~= group_rows(rows@.take(i as int + 1)));
            }
        }
    }
    proof {
        assert(rows@.take(n as int) =~= rows@);
    }
    teams
}

// ---------------------------------------------------------------
// Member payouts
// ---------------------------------------------------------------

/// The sum of a team's splits, in micro-units.
pub open spec fn sum_splits(members: Seq<(u64, Money)>) -> int
    decreases members.len(),
{
    if members.len() == 0 {
        0
    } else {
        sum_splits(members.drop_last()) + members.last().1.units as int
    }
}

pub proof fn lemma_sum_splits_props(members: Seq<(u64, Money)>)
    ensures
        0 <= sum_splits(members),
        forall|i: int|
            0 <= i < members.len() ==> (#[trigger] members[i]).1.units <= sum_splits(members),
        forall|i: int| 0 <= i <= members.len() ==> sum_splits(#[trigger] members.take(i))
            <= sum_splits(members),
    decreases members.len(),
{
    if members.len() > 0 {
        lemma_sum_splits_props(members.drop_last());
        assert(members.last() == members[members.len() - 1]);
        assert forall|i: int|
            0 <= i < members.len() implies (#[trigger] members[i]).1.units <= sum_splits(
            members,
        ) by {
            if i < members.len() - 1 {
                assert(members.drop_last()[i] == members[i]);
            }
        }
        assert forall|i: int| 0 <= i <= members.len() implies sum_splits(
            #[trigger] members.take(i),
        ) <= sum_splits(members) by {
            if i < members.len() {
                assert(members.drop_last().take(i) =~= members.take(i));
            } else {
                assert(members.take(i) =~= members);
            }
        }
    }
}

/// The entries one project's payout yields: each member's share of
/// the project amount, proportional to its split, rounded down, with
/// zero shares discarded.
pub open spec fn member_entries(
    pid: u64,
    amount_units: int,
    s_total: int,
    members: Seq<(u64, Money)>,
) -> Seq<PayoutEntry>
    recommends
        s_total > 0,
    decreases members.len(),
{
    if members.len() == 0 {
        Seq::empty()
    } else {
        member_entries(pid, amount_units, s_total, members.drop_last()) + {
            let a = amount_units * members.last().1.units / s_total;
            if a > 0 {
                seq![
                    PayoutEntry {
                        user_id: members.last().0,
                        project_id: pid,
                        amount: Money { units: a as u64 },
                    },
                ]
            } else {
                Seq::empty()
            }
        }
    }
}

/// The total amount of a list of entries, in micro-units.
pub open spec fn entries_total(es: Seq<PayoutEntry>) -> int
    decreases es.len(),
{
    if es.len() == 0 {
        0
    } else {
        entries_total(es.drop_last()) + es.last().amount.units as int
    }
}

/// Splits one project's amount among its members. A team whose splits
/// sum to zero yields nothing, and no division by zero is reached.
pub fn project_entries(pid: u64, amount: Money, members: &Vec<(u64, Money)>) -> (r: Vec<
    PayoutEntry,
>)
    requires
        sum_splits(members@) <= u64::MAX,
    ensures
        sum_splits(members@) > 0 ==> r@ == member_entries(
            pid,
            amount.units as int,
            sum_splits(members@),
            members@,
        ),
        sum_splits(members@) == 0 ==> r@ == Seq::<PayoutEntry>::empty(),
{
    proof {
        lemma_sum_splits_props(members@);
    }
    let n = members.len();
    let mut wide_total: u128 = 0;
    for i in 0..n
        invariant
            n == members@.len(),
            wide_total == sum_splits(members@.take(i as int)),
            sum_splits(members@.take(i as int)) <= sum_splits(members@),
            sum_splits(members@) <= u64::MAX,
            forall|k: int| 0 <= k <= members@.len() ==> sum_splits(#[trigger] members@.take(k))
                <= sum_splits(members@),
    {
        proof {
            assert(members@.take(i as int + 1).drop_last() =~= members@.take(i as int));
            assert(members@.take(i as int + 1).last() == members@[i as int]);
            lemma_sum_splits_props(members@.take(i as int + 1));
        }
        wide_total = wide_total + (members[i].1.units as u128);
    }
    proof {
        assert(members@.take(n as int) =~= members@);
    }
    let s_total = wide_total as u64;
    let mut r: Vec<PayoutEntry> = Vec::new();
    if s_total == 0 {
        return r;
    }
    for i in 0..n
        invariant
            n == members@.len(),
            s_total == sum_splits(members@),
            s_total > 0,
            r@ =~= member_entries(pid, amount.units as int, s_total as int, members@.take(i as int)),
            forall|k: int|
                0 <= k < members@.len() ==> (#[trigger] members@[k]).1.units <= sum_splits(
                    members@,
                ),
    {
        let (user_id, split) = members[i];
        proof {
            assert(members@[i as int].1.units <= s_total);
            assert(amount.units as int * split.units as int <= amount.units as int
                * s_total as int) by (nonlinear_arith)
                requires
                    split.units <= s_total,
                    0 <= amount.units,
            ;
            lemma_div_is_ordered(
                amount.units as int * split.units as int,
                amount.units as int * s_total as int,
                s_total as int,
            );
            assert(amount.units as int * s_total as int / s_total as int == amount.units as int)
                by (nonlinear_arith)
                requires
                    s_total > 0,
            ;
        }
        let a = amount.mul_div(split.units, s_total);
        proof {
            assert(members@.take(i as int + 1).drop_last() =~= members@.take(i as int));
            assert(members@.take(i as int + 1).last() == members@[i as int]);
        }
        if a.is_positive() {
            r.push(PayoutEntry { user_id, project_id: pid, amount: a });
            proof {
                assert(r@ =~= member_entries(
                    pid,
                    amount.units as int,
                    s_total as int,
                    members@.take(i as int + 1),
                ));
            }
        } else {
            proof {
                assert(r@ =~= member_entries(
                    pid,
                    amount.units as int,
                    s_total as int,
                    members@.take(i as int + 1),
                ));
            }
        }
    }
    proof {
        assert(members@.take(n as int) =~= members@);
    }
    r
}

// ---------------------------------------------------------------
// The whole run
// ---------------------------------------------------------------

/// The entries one team contributes: nothing when the grand total
/// weight is zero, the project carries no weight, or the splits sum
/// to zero; otherwise each member's share of the project's slice of
/// the day's rate.
pub open spec fn team_entries_of(
    rate_units: int,
    weights: Map<u64, u64>,
    total_weight: int,
    t: (u64, Seq<(u64, Money)>),
) -> Seq<PayoutEntry> {
    if total_weight > 0 && weights.contains_key(t.0) && sum_splits(t.1) > 0 {
        member_entries(t.0, rate_units * weights[t.0] / total_weight, sum_splits(t.1), t.1)
    } else {
        Seq::empty()
    }
}

/// The entries of a whole run, teams in order.
pub open spec fn spec_compute(
    rate_units: int,
    weights: Map<u64, u64>,
    total_weight: int,
    teams: Seq<(u64, Seq<(u64, Money)>)>,
) -> Seq<PayoutEntry>
    decreases teams.len(),
{
    if teams.len() == 0 {
        Seq::empty()
    } else {
        spec_compute(rate_units, weights, total_weight, teams.drop_last()) + team_entries_of(
            rate_units,
            weights,
            total_weight,
            teams.last(),
        )
    }
}

/// Computes the entries of one run from the day's rate, the weight
/// map and the teams.
pub fn compute_entries(
    rate: Money,
    weights: &HashMap<u64, u64>,
    total_weight: u64,
    teams: &Vec<ProjectTeam>,
) -> (r: Vec<PayoutEntry>)
    requires
        forall|p: u64| weights@.contains_key(p) ==> #[trigger] weights@[p] <= total_weight,
        forall|t: int|
            0 <= t < team_models(teams@).len() ==> sum_splits(
                #[trigger] team_models(teams@)[t].1,
            ) <= u64::MAX,
    ensures
        r@ == spec_compute(rate.units as int, weights@, total_weight as int, team_models(teams@)),
{
    let mut r: Vec<PayoutEntry> = Vec::new();
    let n = teams.len();
    for i in 0..n
        invariant
            n == teams@.len(),
            forall|p: u64| weights@.contains_key(p) ==> #[trigger] weights@[p] <= total_weight,
            forall|t: int|
                0 <= t < team_models(teams@).len() ==> sum_splits(
                    #[trigger] team_models(teams@)[t].1,
                ) <= u64::MAX,
            r@ =~= spec_compute(
                rate.units as int,
                weights@,
                total_weight as int,
                team_models(teams@).take(i as int),
            ),
    {
        let team = &teams[i];
        proof {
            assert(team_models(teams@).take(i as int + 1).drop_last() =~= team_models(
                teams@,
            ).take(i as int));
            assert(team_models(teams@).take(i as int + 1).last() == teams@[i as int]@);
            assert(team_models(teams@)[i as int] == teams@[i as int]@);
        }
        if total_weight > 0 {
            match weights.get(&team.project_id) {
                Some(w) => {
                    let w = *w;
                    proof {
                        assert(weights@.contains_key(team.project_id) && weights@[team.project_id]
                            == w);
                        assert(rate.units as int * w as int <= rate.units as int
                            * total_weight as int) by (nonlinear_arith)
                            requires
                                w <= total_weight,
                                0 <= rate.units,
                        ;
                        lemma_div_is_ordered(
                            rate.units as int * w as int,
                            rate.units as int * total_weight as int,
                            total_weight as int,
                        );
                        assert(rate.units as int * total_weight as int / total_weight as int
                            == rate.units as int) by (nonlinear_arith)
                            requires
                                total_weight > 0,
                        ;
                    }
                    let x = rate.mul_div(w, total_weight);
                    proof {
                        assert(team_models(teams@)[i as int].1 == team.members@);
                        assert(sum_splits(team.members@) <= u64::MAX);
                    }
                    let entries = project_entries(team.project_id, x, &team.members);
                    let ghost pre = r@;
                    let mut entries = entries;
                    let ghost entry_models = entries@;
                    while entries.len() > 0
                        invariant
                            r@ =~= pre + entry_models.take(
                                entry_models.len() - entries@.len(),
                            ),
                            entries@ =~= entry_models.skip(
                                entry_models.len() - entries@.len(),
                            ),
                            entries@.len() <= entry_models.len(),
                        decreases entries@.len(),
                    {
                        let e = entries.remove(0);
                        r.push(e);
                        proof {
                            let done = entry_models.len() - entries@.len();
                            assert(entry_models.skip(done - 1).drop_first() =~= entry_models.skip(
                                done,
                            ));
                            assert(e == entry_models[done - 1]);
                            assert(entry_models.take(done - 1).push(e) =~= entry_models.take(
                                done,
                            ));
                        }
                    }
                    proof {
                        assert(entry_models.take(entry_models.len() as int) =~= entry_models);
                        assert(r@ =~= pre + entry_models);
                        assert(team_models(teams@)[i as int] == (team.project_id, team.members@));
                        lemma_sum_splits_props(team.members@);
                        if sum_splits(team.members@) > 0 {
                            assert(entry_models =~= team_entries_of(
                                rate.units as int,
                                weights@,
                                total_weight as int,
                                team_models(teams@)[i as int],
                            ));
                        } else {
                            assert(entry_models =~= Seq::<PayoutEntry>::empty());
                            assert(entry_models =~= team_entries_of(
                                rate.units as int,
                                weights@,
                                total_weight as int,
                                team_models(teams@)[i as int],
                            ));
                        }
                    }
                },
                None => {
                    proof {
                        assert(!weights@.contains_key(team.project_id));
                    }
                },
            }
        }
        proof {
            assert(r@ =~= spec_compute(
                rate.units as int,
                weights@,
                total_weight as int,
                team_models(teams@).take(i as int + 1),
            ));
        }
    }
    proof {
        assert(team_models(teams@).take(n as int) =~= team_models(teams@));
    }
    r
}

/// The ledger of one run, as a function of everything the stores
/// reported: the day's rate from the budget and the calendar, the
/// weight map from the two aggregates, and the grouped teams.
pub open spec fn spec_distribution(
    budget_units: int,
    day: int,
    views: Seq<TrafficRow>,
    downloads: Seq<TrafficRow>,
    totals: int,
    rows: Seq<TeamMemberRow>,
) -> Seq<PayoutEntry> {
    spec_compute(
        spec_rate(budget_units, day),
        weight_map_of(views, downloads),
        totals,
        group_rows(rows),
    )
}

/// Plans one distribution run. A day that already holds persisted
/// records is a successful no-op; otherwise the plan carries exactly
/// the entries that the stores' reports determine, to be committed in
/// one transaction.
pub fn plan_distribution(
    already_processed: bool,
    budget: Money,
    day: i64,
    views: &Vec<TrafficRow>,
    views_total: u64,
    downloads: &Vec<TrafficRow>,
    downloads_total: u64,
    team_rows: &Vec<TeamMemberRow>,
) -> (r: RunPlan)
    requires
        0 <= day,
        day + 4 <= i64::MAX,
        views_total + downloads_total <= u64::MAX,
        forall|i: int| 0 <= i < views@.len() ==> (#[trigger] views@[i]).count <= u64::MAX / 2,
        forall|i: int|
            0 <= i < downloads@.len() ==> (#[trigger] downloads@[i]).count <= u64::MAX / 2,
        distinct_projects(downloads@),
        forall|p: u64|
            weight_map_of(views@, downloads@).contains_key(p) ==> #[trigger] weight_map_of(
                views@,
                downloads@,
            )[p] <= views_total + downloads_total,
        forall|t: int|
            0 <= t < group_rows(team_rows@).len() ==> sum_splits(
                #[trigger] group_rows(team_rows@)[t].1,
            ) <= u64::MAX,
    ensures
        r is AlreadyProcessed <==> already_processed,
        !already_processed ==> (r matches RunPlan::Commit { entries } && entries@
            == spec_distribution(
            budget.units as int,
            day as int,
            views@,
            downloads@,
            (views_total + downloads_total) as int,
            team_rows@,
        )),
{
    if already_processed {
        return RunPlan::AlreadyProcessed;
    }
    let rate = rate_for_day(budget, day);
    let weights = combine_traffic(views, downloads);
    let teams = group_team_rows(team_rows);
    let entries = compute_entries(rate, &weights, views_total + downloads_total, &teams);
    RunPlan::Commit { entries }
}

/// Sums the amounts of a planned ledger.
pub fn sum_entries(entries: &Vec<PayoutEntry>) -> (r: u128)
    requires
        entries_total(entries@) <= u128::MAX,
    ensures
        r == entries_total(entries@),
{
    proof {
        lemma_entries_total_props(entries@);
    }
    let mut total: u128 = 0;
    let n = entries.len();
    for i in 0..n
        invariant
            n == entries@.len(),
            total == entries_total(entries@.take(i as int)),
            entries_total(entries@) <= u128::MAX,
            forall|k: int| 0 <= k <= entries@.len() ==> entries_total(
                #[trigger] entries@.take(k),
            ) <= entries_total(entries@),
    {
        proof {
            assert(entries@.take(i as int + 1).drop_last() =~= entries@.take(i as int));
            assert(entries@.take(i as int + 1).last() == entries@[i as int]);
        }
        total = total + (entries[i].amount.units as u128);
    }
    proof {
        assert(entries@.take(n as int) =~= entries@);
    }
    total
}

pub proof fn lemma_entries_total_props(es: Seq<PayoutEntry>)
    ensures
        0 <= entries_total(es),
        forall|k: int| 0 <= k <= es.len() ==> entries_total(#[trigger] es.take(k))
            <= entries_total(es),
    decreases es.len(),
{
    if es.len() > 0 {
        lemma_entries_total_props(es.drop_last());
        assert forall|k: int| 0 <= k <= es.len() implies entries_total(#[trigger] es.take(k))
            <= entries_total(es) by {
            if k < es.len() {
                assert(es.drop_last().take(k) =~= es.take(k));
            } else {
                assert(es.take(k) =~= es);
            }
        }
    }
}

// ---------------------------------------------------------------
// Conservation laws
// ---------------------------------------------------------------

proof fn lemma_member_entries_conservation_general(
    pid: u64,
    amount_units: int,
    s_total: int,
    members: Seq<(u64, Money)>,
)
    requires
        0 <= amount_units <= u64::MAX,
        sum_splits(members) <= s_total,
        s_total > 0,
    ensures
        0 <= entries_total(member_entries(pid, amount_units, s_total, members)),
        s_total * entries_total(member_entries(pid, amount_units, s_total, members))
            <= amount_units * sum_splits(members),
        s_total * entries_total(member_entries(pid, amount_units, s_total, members))
            >= amount_units * sum_splits(members) - members.len() * (s_total - 1),
    decreases members.len(),
{
    if members.len() == 0 {
        assert(amount_units * 0 == 0) by (nonlinear_arith);
        assert(s_total * 0 == 0) by (nonlinear_arith);
    } else {
        let prefix = members.drop_last();
        let m = members.last();
        lemma_sum_splits_props(members);
        assert(sum_splits(prefix) <= s_total);
        lemma_member_entries_conservation_general(pid, amount_units, s_total, prefix);
        let prev = member_entries(pid, amount_units, s_total, prefix);
        let whole = member_entries(pid, amount_units, s_total, members);
        let q = amount_units * m.1.units / s_total;
        lemma_fundamental_div_mod(amount_units * m.1.units, s_total);
        lemma_mod_bound(amount_units * m.1.units, s_total);
        assert(0 <= amount_units * m.1.units) by (nonlinear_arith)
            requires
                0 <= amount_units,
                0 <= m.1.units,
        ;
        lemma_div_pos_is_pos(amount_units * m.1.units, s_total);
        assert(0 <= q);
        assert(q <= amount_units) by {
            assert(amount_units * m.1.units <= amount_units * s_total) by (nonlinear_arith)
                requires
                    m.1.units <= s_total,
                    0 <= amount_units,
            ;
            lemma_div_is_ordered(amount_units * m.1.units, amount_units * s_total, s_total);
            assert(amount_units * s_total / s_total == amount_units) by (nonlinear_arith)
                requires
                    s_total > 0,
            ;
        }
        if q > 0 {
            assert(whole =~= prev.push(
                PayoutEntry { user_id: m.0, project_id: pid, amount: Money { units: q as u64 } },
            ));
            assert(whole.drop_last() =~= prev);
            assert(entries_total(whole) == entries_total(prev) + q);
        } else {
            assert(whole =~= prev);
            assert(entries_total(whole) == entries_total(prev) + q);
        }
        // s_total * (prev_total + q) relates to amount * (prefix_sum + units)
        // through the division identity for the last member.
        assert(s_total * entries_total(whole) == s_total * entries_total(prev) + s_total * q)
            by (nonlinear_arith)
            requires
                entries_total(whole) == entries_total(prev) + q,
        ;
        assert(amount_units * sum_splits(members) == amount_units * sum_splits(prefix)
            + amount_units * m.1.units) by (nonlinear_arith)
            requires
                sum_splits(members) == sum_splits(prefix) + m.1.units,
        ;
        assert(members.len() * (s_total - 1) == prefix.len() * (s_total - 1) + (s_total - 1))
            by (nonlinear_arith)
            requires
                members.len() == prefix.len() + 1,
        ;
        let r_mod = (amount_units * m.1.units) % s_total;
        assert(s_total * q == amount_units * m.1.units - r_mod);
        assert(s_total * entries_total(whole) <= amount_units * sum_splits(members));
        assert(s_total * entries_total(whole) >= amount_units * sum_splits(members)
            - members.len() * (s_total - 1));
    }
}

/// Law (per-project split conservation): the member payouts of one
/// project sum to at most the project's amount, and to more than the
/// amount less one micro-unit per member — each member's entry being
/// exactly the amount times its split over the split total, rounded
/// down.
pub proof fn lemma_project_conservation(pid: u64, amount_units: int, members: Seq<(u64, Money)>)
    requires
        0 <= amount_units <= u64::MAX,
        sum_splits(members) > 0,
    ensures
        0 <= entries_total(member_entries(pid, amount_units, sum_splits(members), members)),
        entries_total(member_entries(pid, amount_units, sum_splits(members), members))
            <= amount_units,
        entries_total(member_entries(pid, amount_units, sum_splits(members), members))
            > amount_units - members.len(),
{
    let s = sum_splits(members);
    assert(members.len() > 0);
    lemma_member_entries_conservation_general(pid, amount_units, s, members);
    let total = entries_total(member_entries(pid, amount_units, s, members));
    assert(total <= amount_units) by (nonlinear_arith)
        requires
            s * total <= amount_units * s,
            s > 0,
    ;
    assert(total > amount_units - members.len()) by (nonlinear_arith)
        requires
            s * total >= amount_units * s - members.len() * (s - 1),
            s > 0,
            members.len() > 0,
    ;
}

/// Law (share bound): a project's members together receive at most
/// the project's slice of the day's rate, and so never more than the
/// rate itself.
pub proof fn lemma_project_never_exceeds_share(
    rate_units: int,
    weights: Map<u64, u64>,
    total_weight: int,
    t: (u64, Seq<(u64, Money)>),
)
    requires
        0 <= rate_units <= u64::MAX,
        weights.contains_key(t.0) ==> weights[t.0] <= total_weight,
    ensures
        0 <= entries_total(team_entries_of(rate_units, weights, total_weight, t)),
        entries_total(team_entries_of(rate_units, weights, total_weight, t)) <= rate_units,
{
    if total_weight > 0 && weights.contains_key(t.0) && sum_splits(t.1) > 0 {
        let w = weights[t.0] as int;
        let amount = rate_units * w / total_weight;
        assert(0 <= rate_units * w) by (nonlinear_arith)
            requires
                0 <= rate_units,
                0 <= w,
        ;
        lemma_div_pos_is_pos(rate_units * w, total_weight);
        assert(amount <= rate_units) by {
            assert(rate_units * w <= rate_units * total_weight) by (nonlinear_arith)
                requires
                    w <= total_weight,
                    0 <= rate_units,
            ;
            lemma_div_is_ordered(rate_units * w, rate_units * total_weight, total_weight);
            assert(rate_units * total_weight / total_weight == rate_units) by (nonlinear_arith)
                requires
                    total_weight > 0,
            ;
        }
        lemma_project_conservation(t.0, amount, t.1);
    }
}

/// The weight the map gives the teams' projects, team by team.
pub open spec fn team_weight_sum(
    weights: Map<u64, u64>,
    teams: Seq<(u64, Seq<(u64, Money)>)>,
) -> int
    decreases teams.len(),
{
    if teams.len() == 0 {
        0
    } else {
        team_weight_sum(weights, teams.drop_last()) + if weights.contains_key(
            teams.last().0,
        ) {
            weights[teams.last().0] as int
        } else {
            0
        }
    }
}

proof fn lemma_entries_total_concat(a: Seq<PayoutEntry>, b: Seq<PayoutEntry>)
    ensures
        entries_total(a + b) == entries_total(a) + entries_total(b),
    decreases b.len(),
{
    if b.len() == 0 {
        assert(a + b =~= a);
    } else {
        lemma_entries_total_concat(a, b.drop_last());
        assert((a + b).drop_last() =~= a + b.drop_last());
        assert((a + b).last() == b.last());
    }
}

proof fn lemma_run_bound_scaled(
    rate_units: int,
    weights: Map<u64, u64>,
    total_weight: int,
    teams: Seq<(u64, Seq<(u64, Money)>)>,
)
    requires
        0 <= rate_units <= u64::MAX,
        total_weight > 0,
        forall|p: u64| weights.contains_key(p) ==> #[trigger] weights[p] <= total_weight,
    ensures
        0 <= entries_total(spec_compute(rate_units, weights, total_weight, teams)),
        entries_total(spec_compute(rate_units, weights, total_weight, teams)) * total_weight
            <= rate_units * team_weight_sum(weights, teams),
    decreases teams.len(),
{
    let run = spec_compute(rate_units, weights, total_weight, teams);
    if teams.len() == 0 {
        assert(0 * total_weight == 0) by (nonlinear_arith);
        assert(rate_units * 0 == 0) by (nonlinear_arith);
    } else {
        let prefix = teams.drop_last();
        let t = teams.last();
        lemma_run_bound_scaled(rate_units, weights, total_weight, prefix);
        let prev = spec_compute(rate_units, weights, total_weight, prefix);
        let te = team_entries_of(rate_units, weights, total_weight, t);
        lemma_entries_total_concat(prev, te);
        let prev_sum = team_weight_sum(weights, prefix);
        if weights.contains_key(t.0) && sum_splits(t.1) > 0 {
            let w = weights[t.0] as int;
            let amount = rate_units * w / total_weight;
            assert(0 <= rate_units * w) by (nonlinear_arith)
                requires
                    0 <= rate_units,
                    0 <= w,
            ;
            lemma_div_pos_is_pos(rate_units * w, total_weight);
            assert(amount <= rate_units) by {
                assert(rate_units * w <= rate_units * total_weight) by (nonlinear_arith)
                    requires
                        0 <= rate_units,
                        w <= total_weight,
                ;
                lemma_div_is_ordered(rate_units * w, rate_units * total_weight, total_weight);
                assert(rate_units * total_weight / total_weight == rate_units)
                    by (nonlinear_arith)
                    requires
                        total_weight > 0,
                ;
            }
            lemma_project_conservation(t.0, amount, t.1);
            // The floor never pays more than the exact share:
            // amount * total is at most rate * weight.
            lemma_fundamental_div_mod(rate_units * w, total_weight);
            lemma_mod_bound(rate_units * w, total_weight);
            assert(total_weight * amount <= rate_units * w);
            assert(entries_total(te) * total_weight <= amount * total_weight)
                by (nonlinear_arith)
                requires
                    entries_total(te) <= amount,
                    total_weight > 0,
            ;
            assert(amount * total_weight == total_weight * amount) by (nonlinear_arith);
            assert(entries_total(run) * total_weight == entries_total(prev) * total_weight
                + entries_total(te) * total_weight) by (nonlinear_arith)
                requires
                    entries_total(run) == entries_total(prev) + entries_total(te),
            ;
            assert(rate_units * team_weight_sum(weights, teams) == rate_units * prev_sum
                + rate_units * w) by (nonlinear_arith)
                requires
                    team_weight_sum(weights, teams) == prev_sum + w,
            ;
        } else {
            assert(te =~= Seq::<PayoutEntry>::empty());
            let added = team_weight_sum(weights, teams) - prev_sum;
            assert(0 <= added);
            assert(0 <= rate_units * added) by (nonlinear_arith)
                requires
                    0 <= rate_units,
                    0 <= added,
            ;
            assert(rate_units * team_weight_sum(weights, teams) == rate_units * prev_sum
                + rate_units * added) by (nonlinear_arith)
                requires
                    team_weight_sum(weights, teams) == prev_sum + added,
            ;
        }
    }
}

proof fn lemma_run_zero_total(
    rate_units: int,
    weights: Map<u64, u64>,
    total_weight: int,
    teams: Seq<(u64, Seq<(u64, Money)>)>,
)
    requires
        total_weight <= 0,
    ensures
        entries_total(spec_compute(rate_units, weights, total_weight, teams)) == 0,
    decreases teams.len(),
{
    if teams.len() > 0 {
        lemma_run_zero_total(rate_units, weights, total_weight, teams.drop_last());
        let prev = spec_compute(rate_units, weights, total_weight, teams.drop_last());
        let te = team_entries_of(rate_units, weights, total_weight, teams.last());
        lemma_entries_total_concat(prev, te);
    }
}

/// Law (run-level money conservation): when the grand total covers
/// the teams' combined weight — as a total over the same events
/// always does — the whole ledger of one run pays out at most the
/// day's rate.
pub proof fn lemma_run_never_exceeds_rate(
    rate_units: int,
    weights: Map<u64, u64>,
    total_weight: int,
    teams: Seq<(u64, Seq<(u64, Money)>)>,
)
    requires
        0 <= rate_units <= u64::MAX,
        team_weight_sum(weights, teams) <= total_weight,
        forall|p: u64| weights.contains_key(p) ==> #[trigger] weights[p] <= total_weight,
    ensures
        0 <= entries_total(spec_compute(rate_units, weights, total_weight, teams)),
        entries_total(spec_compute(rate_units, weights, total_weight, teams)) <= rate_units,
{
    if total_weight <= 0 {
        lemma_run_zero_total(rate_units, weights, total_weight, teams);
    } else {
        lemma_run_bound_scaled(rate_units, weights, total_weight, teams);
        let run_total = entries_total(spec_compute(rate_units, weights, total_weight, teams));
        let wsum = team_weight_sum(weights, teams);
        assert(rate_units * wsum <= rate_units * total_weight) by (nonlinear_arith)
            requires
                wsum <= total_weight,
                0 <= rate_units,
        ;
        assert(run_total <= rate_units) by (nonlinear_arith)
            requires
                run_total * total_weight <= rate_units * total_weight,
                total_weight > 0,
        ;
    }
}

/// Law (zero-split guard): a team whose splits sum to zero
/// contributes no entries, whatever the rate and weights say.
pub proof fn lemma_zero_split_no_entries(
    rate_units: int,
    weights: Map<u64, u64>,
    total_weight: int,
    t: (u64, Seq<(u64, Money)>),
)
    requires
        sum_splits(t.1) == 0,
    ensures
        team_entries_of(rate_units, weights, total_weight, t) == Seq::<PayoutEntry>::empty(),
{
}

} // verus!
