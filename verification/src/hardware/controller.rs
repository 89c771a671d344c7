//! The fan controller: the state of all fans, their curves, custom labels and
//! the saved Custom profile, and the decisions taken on them. Talking to the
//! hardware backends is the caller's part: it hands in what they reported and
//! carries out what this module decides.

use vstd::prelude::*;
use crate::hardware::types::{CurvePoint, FanInfo, FanInfoView, FanMode};
use crate::hardware::curve::{
    check_curve, check_curve_spec, curve_speed, interpolate_curve, lemma_curve_speed_within,
    valid_curve, CurveError,
};
use crate::table::Table;
use crate::config::{json_string_map, parse_string_map, pretty_json_string_map, string_map_to_json, string_pairs_view};

verus! {

/// The mathematical state of a controller.
pub struct ControllerView {
    /// Every known fan, by id.
    pub fans: Map<Seq<char>, FanInfoView>,
    /// The active curve of each fan under curve control, by fan id.
    pub curves: Map<Seq<char>, Seq<CurvePoint>>,
    /// User-defined labels that override hardware-detected names, by fan id.
    pub labels: Map<Seq<char>, Seq<char>>,
    /// Saved curves of the Custom profile, by fan id.
    pub profile: Map<Seq<char>, Seq<CurvePoint>>,
}

/// A map with the entries of `s` inserted one after the other, later ones winning.
pub open spec fn inserted_all<X>(m: Map<Seq<char>, X>, s: Seq<(Seq<char>, X)>) -> Map<Seq<char>, X>
    decreases s.len(),
{
    if s.len() == 0 {
        m
    } else {
        inserted_all(m, s.drop_last()).insert(s.last().0, s.last().1)
    }
}

/// `f` with its mode set to `mode`, and its speed to `speed` when that is given.
pub open spec fn restated(f: FanInfoView, mode: FanMode, speed: Option<u8>) -> FanInfoView {
    FanInfoView {
        mode: mode,
        speed_pct: match speed {
            Some(s) => Some(s),
            None => f.speed_pct,
        },
        ..f
    }
}

/// The fans with fan `id`, if it is known, restated.
pub open spec fn restate_fan(
    fans: Map<Seq<char>, FanInfoView>,
    id: Seq<char>,
    mode: FanMode,
    speed: Option<u8>,
) -> Map<Seq<char>, FanInfoView> {
    if fans.contains_key(id) {
        fans.insert(id, restated(fans[id], mode, speed))
    } else {
        fans
    }
}

/// The state after `set_curve(id, pts)`: a valid curve becomes the fan's
/// active curve and puts a known fan in curve mode; an invalid one changes nothing.
pub open spec fn set_curve_spec(v: ControllerView, id: Seq<char>, pts: Seq<CurvePoint>) -> ControllerView {
    if valid_curve(pts) {
        ControllerView {
            curves: v.curves.insert(id, pts),
            fans: restate_fan(v.fans, id, FanMode::Curve, None),
            ..v
        }
    } else {
        v
    }
}

/// The state after `reset_to_default(id)`: no active curve, and a known fan in auto mode.
pub open spec fn reset_spec(v: ControllerView, id: Seq<char>) -> ControllerView {
    ControllerView {
        curves: v.curves.remove(id),
        fans: restate_fan(v.fans, id, FanMode::Auto, None),
        ..v
    }
}

/// The percentage that a fixed speed request for `pct` is carried out with.
pub open spec fn fixed_pct_spec(pct: u8) -> u8 {
    if pct <= 100 {
        pct
    } else {
        100
    }
}

/// A fixed speed request of at most 100 % is carried out at exactly that
/// percentage; any larger request at 100 %.
pub proof fn law_fixed_speed_exact(pct: u8)
    ensures
        pct <= 100 ==> fixed_pct_spec(pct) == pct,
        pct > 100 ==> fixed_pct_spec(pct) == 100,
{
}

/// Some backend accepted the speed.
pub open spec fn any_ok(attempts: Seq<Result<(), String>>) -> bool {
    exists|i: int| 0 <= i < attempts.len() && #[trigger] attempts[i] is Ok
}

/// The message of a failed fixed speed request: that of the last backend tried.
pub open spec fn last_error(attempts: Seq<Result<(), String>>) -> Seq<char> {
    if attempts.len() > 0 && attempts.last() is Err {
        attempts.last()->Err_0@
    } else {
        Seq::empty()
    }
}

/// The backend to ask next for a speed: the first one not asked yet, unless
/// one of those asked accepted or every backend has been asked.
pub open spec fn next_backend_spec(answers: Seq<Result<(), String>>, n: nat) -> Option<nat> {
    if any_ok(answers) || answers.len() >= n {
        None
    } else {
        Some(answers.len())
    }
}

/// The answers of backends asked in order until the first accepted: none
/// before the last accepted, and the last accepted unless every backend was asked.
pub open spec fn asked_until_ok(answers: Seq<Result<(), String>>, n: nat) -> bool {
    &&& answers.len() <= n
    &&& forall|i: int| 0 <= i < answers.len() - 1 ==> #[trigger] answers[i] is Err
    &&& answers.len() < n ==> answers.len() > 0 && answers.last() is Ok
}

/// The backend to ask next to reset a fan: every backend once, in order,
/// whatever the earlier ones answered.
pub open spec fn next_reset_backend_spec(asked: nat, n: nat) -> Option<nat> {
    if asked < n {
        Some(asked)
    } else {
        None
    }
}

/// The speed each curve-controlled fan with a known temperature is to be driven at.
pub open spec fn plan_spec(v: ControllerView) -> Map<Seq<char>, u8> {
    Map::new(
        |k: Seq<char>| v.curves.contains_key(k) && v.fans.contains_key(k) && v.fans[k].temp_milli_c is Some,
        |k: Seq<char>| curve_speed(v.curves[k], v.fans[k].temp_milli_c->0 as int) as u8,
    )
}

/// A fan as it is shown: with its custom label when it has one.
pub open spec fn displayed(f: FanInfoView, labels: Map<Seq<char>, Seq<char>>) -> FanInfoView {
    if labels.contains_key(f.id) {
        FanInfoView { label: labels[f.id], ..f }
    } else {
        f
    }
}

/// The profile curves that `apply_custom_profile` puts into effect.
pub open spec fn usable_profile(v: ControllerView, k: Seq<char>) -> bool {
    v.profile.contains_key(k) && valid_curve(v.profile[k])
}

/// The state after `apply_custom_profile`: every valid curve of the Custom
/// profile is set as its fan's curve.
pub open spec fn apply_profile_spec(v: ControllerView) -> ControllerView {
    ControllerView {
        curves: Map::new(
            |k: Seq<char>| v.curves.contains_key(k) || usable_profile(v, k),
            |k: Seq<char>| if usable_profile(v, k) { v.profile[k] } else { v.curves[k] },
        ),
        fans: Map::new(
            |k: Seq<char>| v.fans.contains_key(k),
            |k: Seq<char>|
                if usable_profile(v, k) {
                    restated(v.fans[k], FanMode::Curve, None)
                } else {
                    v.fans[k]
                },
        ),
        ..v
    }
}


/// After a valid curve is set for a fan with a known temperature, the next tick
/// drives that fan at the curve's speed for that temperature.
pub proof fn law_set_curve_drives_fan(v: ControllerView, id: Seq<char>, pts: Seq<CurvePoint>)
    requires
        valid_curve(pts),
        v.fans.contains_key(id),
        v.fans[id].temp_milli_c is Some,
    ensures
        plan_spec(set_curve_spec(v, id, pts)).contains_key(id),
        plan_spec(set_curve_spec(v, id, pts))[id] == curve_speed(pts, v.fans[id].temp_milli_c->0 as int) as u8,
        set_curve_spec(v, id, pts).fans[id].mode == FanMode::Curve,
{
}

/// A refused curve changes nothing.
pub proof fn law_refused_curve_changes_nothing(v: ControllerView, id: Seq<char>, pts: Seq<CurvePoint>)
    requires
        !valid_curve(pts),
    ensures
        set_curve_spec(v, id, pts) == v,
{
}

/// After a reset a fan is no longer driven by a curve and is marked auto; the
/// other fans' tick speeds stay as they were.
pub proof fn law_reset_stops_curve(v: ControllerView, id: Seq<char>)
    ensures
        !plan_spec(reset_spec(v, id)).contains_key(id),
        v.fans.contains_key(id) ==> reset_spec(v, id).fans[id].mode == FanMode::Auto,
        forall|k: Seq<char>|
            k != id ==> (#[trigger] plan_spec(reset_spec(v, id)).contains_key(k) == plan_spec(v).contains_key(k)
                && (plan_spec(v).contains_key(k) ==> plan_spec(reset_spec(v, id))[k] == plan_spec(v)[k])),
{
}

/// Resetting a fan undoes setting its curve: the active curves are those from
/// before, without that fan.
pub proof fn law_reset_undoes_set_curve(v: ControllerView, id: Seq<char>, pts: Seq<CurvePoint>)
    ensures
        reset_spec(set_curve_spec(v, id, pts), id).curves == v.curves.remove(id),
{
    assert(reset_spec(set_curve_spec(v, id, pts), id).curves =~= v.curves.remove(id));
}

/// Every tick speed lies within the speeds of the points of the fan's curve; so
/// with all points at 100 % or below, no fan is driven above 100 %.
pub proof fn law_tick_speed_within_curve(v: ControllerView, id: Seq<char>, lo: int, hi: int)
    requires
        plan_spec(v).contains_key(id),
        valid_curve(v.curves[id]),
        0 <= lo,
        hi <= 255,
        forall|k: int| 0 <= k < v.curves[id].len() ==> lo <= #[trigger] v.curves[id][k].speed_pct <= hi,
    ensures
        lo <= plan_spec(v)[id] <= hi,
{
    let t = v.fans[id].temp_milli_c->0 as int;
    lemma_curve_speed_within(v.curves[id], t, lo, hi);
}


/// The state after resetting each fan of `ids` in turn.
pub open spec fn reset_all_spec(v: ControllerView, ids: Seq<Seq<char>>) -> ControllerView
    decreases ids.len(),
{
    if ids.len() == 0 {
        v
    } else {
        reset_spec(reset_all_spec(v, ids.drop_last()), ids.last())
    }
}

proof fn lemma_reset_all(v: ControllerView, ids: Seq<Seq<char>>)
    ensures
        reset_all_spec(v, ids).fans.dom() == v.fans.dom(),
        forall|k: Seq<char>| #[trigger] plan_spec(reset_all_spec(v, ids)).contains_key(k) ==> !ids.contains(k),
        forall|k: Seq<char>|
            #[trigger] reset_all_spec(v, ids).fans.contains_key(k) && ids.contains(k) ==> reset_all_spec(
                v,
                ids,
            ).fans[k].mode == FanMode::Auto,
    decreases ids.len(),
{
    if ids.len() > 0 {
        let prev = reset_all_spec(v, ids.drop_last());
        lemma_reset_all(v, ids.drop_last());
        let id = ids.last();
        assert(reset_all_spec(v, ids).fans.dom() =~= prev.fans.dom());
        assert forall|k: Seq<char>| #[trigger] plan_spec(reset_all_spec(v, ids)).contains_key(k) implies !ids.contains(k) by {
            let cur = reset_all_spec(v, ids);
            assert(cur.curves.contains_key(k));
            assert(k != id);
            assert(prev.curves.contains_key(k));
            assert(prev.fans.contains_key(k));
            assert(cur.fans[k] == prev.fans[k]);
            assert(plan_spec(prev).contains_key(k));
            assert(!ids.drop_last().contains(k));
            if ids.contains(k) {
                let j = choose|j: int| 0 <= j < ids.len() && ids[j] == k;
                if j < ids.len() - 1 {
                    assert(ids.drop_last()[j] == k);
                }
            }
        }
        assert forall|k: Seq<char>|
            #[trigger] reset_all_spec(v, ids).fans.contains_key(k) && ids.contains(k) implies reset_all_spec(
                v,
                ids,
            ).fans[k].mode == FanMode::Auto by {
            let j = choose|j: int| 0 <= j < ids.len() && ids[j] == k;
            if k != id {
                assert(ids.drop_last()[j] == k);
            }
        }
    }
}

/// Resetting every known fan (what "Reset All" and the daemon's exit do) leaves
/// no fan driven by a curve and every fan in auto mode.
pub proof fn law_reset_all_stops_every_curve(v: ControllerView, ids: Seq<Seq<char>>)
    requires
        forall|k: Seq<char>| #[trigger] v.fans.contains_key(k) ==> ids.contains(k),
    ensures
        plan_spec(reset_all_spec(v, ids)) == Map::<Seq<char>, u8>::empty(),
        forall|k: Seq<char>|
            #[trigger] reset_all_spec(v, ids).fans.contains_key(k) ==> reset_all_spec(v, ids).fans[k].mode
                == FanMode::Auto,
{
    lemma_reset_all(v, ids);
    assert(plan_spec(reset_all_spec(v, ids)) =~= Map::<Seq<char>, u8>::empty());
}


/// Asking backends as `next_backend` directs, one answer at a time, asks them
/// in order, each at most once, and stops right after the first that accepts
/// (after the last when none does).
pub proof fn law_next_backend_stops_at_first_ok(answers: Seq<Result<(), String>>, n: nat)
    requires
        forall|k: int| 0 <= k < answers.len() ==> #[trigger] next_backend_spec(answers.take(k), n) == Some(k as nat),
        next_backend_spec(answers, n) is None,
    ensures
        asked_until_ok(answers, n),
{
    if answers.len() > 0 {
        let last = answers.len() - 1;
        assert(next_backend_spec(answers.take(last), n) == Some(last as nat));
        assert(last < n);
        assert forall|i: int| 0 <= i < answers.len() - 1 implies #[trigger] answers[i] is Err by {
            assert(next_backend_spec(answers.take(last), n) is Some);
            assert(!any_ok(answers.take(last)));
            assert(answers.take(last)[i] == answers[i]);
            if answers[i] is Ok {
                assert(answers.take(last)[i] is Ok);
            }
        }
        if answers.len() < n {
            assert(any_ok(answers));
            let j = choose|j: int| 0 <= j < answers.len() && #[trigger] answers[j] is Ok;
            assert(j == last);
        }
    }
}

/// After the daemon applies the Custom profile, each known fan with a valid
/// saved curve and a known temperature is driven by that curve.
pub proof fn law_profile_drives_fans(v: ControllerView, k: Seq<char>)
    requires
        usable_profile(v, k),
        v.fans.contains_key(k),
        v.fans[k].temp_milli_c is Some,
    ensures
        plan_spec(apply_profile_spec(v)).contains_key(k),
        plan_spec(apply_profile_spec(v))[k] == curve_speed(v.profile[k], v.fans[k].temp_milli_c->0 as int) as u8,
        apply_profile_spec(v).fans[k].mode == FanMode::Curve,
{
}

/// After a fan is renamed, it is shown with the new label.
pub proof fn law_rename_shows_label(f: FanInfoView, labels: Map<Seq<char>, Seq<char>>, label: Seq<char>)
    ensures
        displayed(f, labels.insert(f.id, label)).label == label,
        displayed(f, labels.insert(f.id, label)).id == f.id,
{
}

/// The state after `rename_fan(id, label)`.
pub open spec fn rename_spec(v: ControllerView, id: Seq<char>, label: Seq<char>) -> ControllerView {
    ControllerView { labels: v.labels.insert(id, label), ..v }
}

/// The state after `scan_all(scanned)`: the known fans are those scanned, by id.
pub open spec fn scan_spec(v: ControllerView, scanned: Seq<FanInfo>) -> ControllerView {
    ControllerView { fans: inserted_all(Map::empty(), fans_view(scanned)), ..v }
}

/// The state after a scan with each list of `scans` in turn.
pub open spec fn rescans(v: ControllerView, scans: Seq<Seq<FanInfo>>) -> ControllerView
    decreases scans.len(),
{
    if scans.len() == 0 {
        v
    } else {
        scan_spec(rescans(v, scans.drop_last()), scans.last())
    }
}

/// The fans of a scan, by id: a fan is known exactly when the scan listed a
/// fan with its id, and it is stored under its own id.
proof fn lemma_scanned(s: Seq<FanInfo>, k: Seq<char>)
    ensures
        inserted_all(Map::empty(), fans_view(s)).contains_key(k) <==> exists|i: int|
            0 <= i < s.len() && #[trigger] s[i].id@ == k,
        inserted_all(Map::empty(), fans_view(s)).contains_key(k) ==> inserted_all(Map::empty(), fans_view(s))[k].id
            == k,
    decreases s.len(),
{
    if s.len() > 0 {
        let t = s.drop_last();
        lemma_scanned(t, k);
        assert(fans_view(s).drop_last() =~= fans_view(t));
        assert(fans_view(s).last() == (s.last().id@, s.last()@));
        if exists|i: int| 0 <= i < s.len() && #[trigger] s[i].id@ == k {
            let i = choose|i: int| 0 <= i < s.len() && #[trigger] s[i].id@ == k;
            if i < s.len() - 1 {
                assert(t[i].id@ == k);
            }
        }
        if exists|i: int| 0 <= i < t.len() && #[trigger] t[i].id@ == k {
            let i = choose|i: int| 0 <= i < t.len() && #[trigger] t[i].id@ == k;
            assert(s[i].id@ == k);
        }
    }
}

/// Scans never change the custom labels.
proof fn lemma_rescans_keep_labels(v: ControllerView, scans: Seq<Seq<FanInfo>>)
    ensures
        rescans(v, scans).labels == v.labels,
    decreases scans.len(),
{
    if scans.len() > 0 {
        lemma_rescans_keep_labels(v, scans.drop_last());
    }
}

/// A renamed fan keeps its label across any number of rescans: once the
/// latest scan lists a fan with its id, that fan is known, stored under its
/// id, and shown with the label it was given, whatever the hardware reports.
pub proof fn law_label_survives_rescans(
    v: ControllerView,
    id: Seq<char>,
    label: Seq<char>,
    scans: Seq<Seq<FanInfo>>,
)
    requires
        scans.len() > 0,
        exists|i: int| 0 <= i < scans.last().len() && #[trigger] scans.last()[i].id@ == id,
    ensures
        rescans(rename_spec(v, id, label), scans).fans.contains_key(id),
        rescans(rename_spec(v, id, label), scans).fans[id].id == id,
        displayed(
            rescans(rename_spec(v, id, label), scans).fans[id],
            rescans(rename_spec(v, id, label), scans).labels,
        ).label == label,
{
    let r = rename_spec(v, id, label);
    lemma_rescans_keep_labels(r, scans.drop_last());
    lemma_scanned(scans.last(), id);
}

/// Manages the state of all fans and aggregates their data.
pub struct FanController {
    fans: Table<FanInfo>,
    curves: Table<Vec<CurvePoint>>,
    custom_labels: Table<String>,
    custom_profile: Table<Vec<CurvePoint>>,
}

impl View for FanController {
    type V = ControllerView;

    closed spec fn view(&self) -> ControllerView {
        ControllerView {
            fans: self.fans@,
            curves: self.curves@,
            labels: self.custom_labels@,
            profile: self.custom_profile@,
        }
    }
}

/// The custom labels stored in the labels file: none when it could not be
/// read or does not hold a JSON object of strings.
pub open spec fn stored_labels(text: Option<Seq<char>>) -> Seq<(Seq<char>, Seq<char>)> {
    match text {
        Some(t) => match json_string_map(t) {
            Some(p) => p,
            None => Seq::empty(),
        },
        None => Seq::empty(),
    }
}

/// The optional view of an optional string slice.
pub open spec fn opt_text(s: Option<&str>) -> Option<Seq<char>> {
    match s {
        Some(c) => Some(c@),
        None => None,
    }
}

/// The entries of a table given as pairs.
pub open spec fn pairs_view<X: View>(s: Seq<(String, X)>) -> Seq<(Seq<char>, X::V)> {
    s.map_values(|e: (String, X)| (e.0@, e.1@))
}

/// The fans of a scan, by id.
pub open spec fn fans_view(s: Seq<FanInfo>) -> Seq<(Seq<char>, FanInfoView)> {
    s.map_values(|f: FanInfo| (f.id@, f@))
}

impl FanController {
    /// The tables are consistent, each fan is stored under its own id, and
    /// every active curve is valid.
    pub closed spec fn wf(&self) -> bool {
        &&& self.fans.wf()
        &&& self.curves.wf()
        &&& self.custom_labels.wf()
        &&& self.custom_profile.wf()
        &&& forall|k: Seq<char>| #[trigger] self.fans@.contains_key(k) ==> self.fans@[k].id == k
        &&& forall|k: Seq<char>| #[trigger] self.curves@.contains_key(k) ==> valid_curve(self.curves@[k])
    }

    /// The fans in the order they are listed.
    pub closed spec fn fan_order(&self) -> Seq<(Seq<char>, FanInfoView)> {
        self.fans.order()
    }

    /// The fan order lists each known fan once, with its state.
    pub proof fn lemma_fan_order(&self)
        requires
            self.wf(),
        ensures
            forall|i: int|
                0 <= i < self.fan_order().len() ==> #[trigger] self@.fans.contains_key(self.fan_order()[i].0)
                    && self@.fans[self.fan_order()[i].0] == self.fan_order()[i].1,
            forall|k: Seq<char>|
                #[trigger] self@.fans.contains_key(k) ==> exists|i: int|
                    0 <= i < self.fan_order().len() && #[trigger] self.fan_order()[i].0 == k,
            forall|i: int, j: int|
                0 <= i < j < self.fan_order().len() ==> #[trigger] self.fan_order()[i].0
                    != #[trigger] self.fan_order()[j].0,
    {
        self.fans.lemma_order();
        assert forall|k: Seq<char>| #[trigger] self@.fans.contains_key(k) implies exists|i: int|
            0 <= i < self.fan_order().len() && #[trigger] self.fan_order()[i].0 == k by {
            let i = choose|i: int| 0 <= i < self.fans.order().len() && #[trigger] self.fans.order()[i].0 == k;
            assert(self.fan_order()[i].0 == k);
        }
        assert forall|i: int, j: int|
            0 <= i < j < self.fan_order().len() implies #[trigger] self.fan_order()[i].0
            != #[trigger] self.fan_order()[j].0 by {
            let ks = crate::table::keys_of(self.fans.order());
            assert(ks[i] == self.fan_order()[i].0);
            assert(ks[j] == self.fan_order()[j].0);
        }
    }

    /// The custom labels in the order they were set.
    pub closed spec fn label_order(&self) -> Seq<(Seq<char>, Seq<char>)> {
        self.custom_labels.order()
    }

    /// The custom label order lists each custom label once, with its text.
    pub proof fn lemma_label_order(&self)
        requires
            self.wf(),
        ensures
            forall|i: int|
                0 <= i < self.label_order().len() ==> #[trigger] self@.labels.contains_key(self.label_order()[i].0)
                    && self@.labels[self.label_order()[i].0] == self.label_order()[i].1,
            forall|k: Seq<char>|
                #[trigger] self@.labels.contains_key(k) ==> exists|i: int|
                    0 <= i < self.label_order().len() && #[trigger] self.label_order()[i].0 == k,
            forall|i: int, j: int|
                0 <= i < j < self.label_order().len() ==> #[trigger] self.label_order()[i].0
                    != #[trigger] self.label_order()[j].0,
    {
        self.custom_labels.lemma_order();
        assert forall|k: Seq<char>| #[trigger] self@.labels.contains_key(k) implies exists|i: int|
            0 <= i < self.label_order().len() && #[trigger] self.label_order()[i].0 == k by {
            let i = choose|i: int|
                0 <= i < self.custom_labels.order().len() && #[trigger] self.custom_labels.order()[i].0 == k;
            assert(self.label_order()[i].0 == k);
        }
        assert forall|i: int, j: int|
            0 <= i < j < self.label_order().len() implies #[trigger] self.label_order()[i].0
            != #[trigger] self.label_order()[j].0 by {
            let ks = crate::table::keys_of(self.custom_labels.order());
            assert(ks[i] == self.label_order()[i].0);
            assert(ks[j] == self.label_order()[j].0);
        }
    }

    /// A controller with no fans and no curves, with the custom labels of the
    /// labels file (`labels_json`, its contents if it could be read) and the
    /// saved Custom profile (later entries win over earlier ones).
    pub fn new(labels_json: Option<&str>, profile: Vec<(String, Vec<CurvePoint>)>) -> (c: Self)
        ensures
            c.wf(),
            c@.fans == Map::<Seq<char>, FanInfoView>::empty(),
            c@.curves == Map::<Seq<char>, Seq<CurvePoint>>::empty(),
            c@.labels == inserted_all(Map::empty(), stored_labels(opt_text(labels_json))),
            c@.profile == inserted_all(Map::empty(), pairs_view(profile@)),
    {
        let labels: Vec<(String, String)> = match labels_json {
            Some(t) => match parse_string_map(t) {
                Some(v) => v,
                None => Vec::new(),
            },
            None => Vec::new(),
        };
        proof {
            assert(pairs_view(labels@) =~= stored_labels(opt_text(labels_json)));
        }
        Self::from_entries(labels, profile)
    }

    /// A controller with no fans and no curves, with the given custom labels
    /// and saved Custom profile curves (later entries win over earlier ones).
    pub fn from_entries(labels: Vec<(String, String)>, profile: Vec<(String, Vec<CurvePoint>)>) -> (c: Self)
        ensures
            c.wf(),
            c@.fans == Map::<Seq<char>, FanInfoView>::empty(),
            c@.curves == Map::<Seq<char>, Seq<CurvePoint>>::empty(),
            c@.labels == inserted_all(Map::empty(), pairs_view(labels@)),
            c@.profile == inserted_all(Map::empty(), pairs_view(profile@)),
    {
        let mut custom_labels: Table<String> = Table::new();
        let mut labels = labels;
        let ghost all_labels = labels@;
        let mut i: usize = 0;
        let n = labels.len();
        // Entries are taken from the back, so the table is built from the front first.
        let mut rev: Vec<(String, String)> = Vec::new();
        while labels.len() > 0
            invariant
                n == all_labels.len(),
                labels@ == all_labels.take(labels@.len() as int),
                rev@.len() + labels@.len() == n,
                forall|j: int| 0 <= j < rev@.len() ==> #[trigger] rev@[j] == all_labels[n - 1 - j],
            decreases labels@.len(),
        {
            let e = labels.pop().unwrap();
            rev.push(e);
            assert(all_labels.take(labels@.len() as int) =~= all_labels.take(labels@.len() + 1 as int).drop_last());
        }
        while rev.len() > 0
            invariant
                n == all_labels.len(),
                i + rev@.len() == n,
                forall|j: int| 0 <= j < rev@.len() ==> #[trigger] rev@[j] == all_labels[n - 1 - j],
                custom_labels.wf(),
                custom_labels@ == inserted_all(Map::empty(), pairs_view(all_labels.take(i as int))),
            decreases rev@.len(),
        {
            let (k, v) = rev.pop().unwrap();
            proof {
                assert((k, v) == all_labels[i as int]);
                assert(pairs_view(all_labels.take(i + 1)).drop_last() =~= pairs_view(all_labels.take(i as int)));
                assert(pairs_view(all_labels.take(i + 1)).last() == (k@, v@));
            }
            custom_labels.insert(k, v);
            i = i + 1;
        }
        assert(all_labels.take(n as int) =~= all_labels);

        let mut custom_profile: Table<Vec<CurvePoint>> = Table::new();
        let mut profile = profile;
        let ghost all_profile = profile@;
        let m = profile.len();
        let mut rev2: Vec<(String, Vec<CurvePoint>)> = Vec::new();
        while profile.len() > 0
            invariant
                m == all_profile.len(),
                profile@ == all_profile.take(profile@.len() as int),
                rev2@.len() + profile@.len() == m,
                forall|j: int| 0 <= j < rev2@.len() ==> #[trigger] rev2@[j] == all_profile[m - 1 - j],
            decreases profile@.len(),
        {
            let e = profile.pop().unwrap();
            rev2.push(e);
            assert(all_profile.take(profile@.len() as int) =~= all_profile.take(profile@.len() + 1 as int).drop_last());
        }
        let mut j: usize = 0;
        while rev2.len() > 0
            invariant
                m == all_profile.len(),
                j + rev2@.len() == m,
                forall|q: int| 0 <= q < rev2@.len() ==> #[trigger] rev2@[q] == all_profile[m - 1 - q],
                custom_profile.wf(),
                custom_profile@ == inserted_all(Map::empty(), pairs_view(all_profile.take(j as int))),
            decreases rev2@.len(),
        {
            let (k, v) = rev2.pop().unwrap();
            proof {
                assert((k, v) == all_profile[j as int]);
                assert(pairs_view(all_profile.take(j + 1)).drop_last() =~= pairs_view(all_profile.take(j as int)));
                assert(pairs_view(all_profile.take(j + 1)).last() == (k@, v@));
            }
            custom_profile.insert(k, v);
            j = j + 1;
        }
        assert(all_profile.take(m as int) =~= all_profile);
        let c = FanController {
            fans: Table::new(),
            curves: Table::new(),
            custom_labels,
            custom_profile,
        };
        c
    }

    /// Replaces the known fans by those of a fresh scan of all backends (a later
    /// fan with the same id wins).
    pub fn scan_all(&mut self, scanned: Vec<FanInfo>)
        requires
            old(self).wf(),
        ensures
            final(self).wf(),
            final(self)@ == scan_spec(old(self)@, scanned@),
    {
        self.fans.clear();
        let mut scanned = scanned;
        let ghost all = scanned@;
        let n = scanned.len();
        let mut rev: Vec<FanInfo> = Vec::new();
        while scanned.len() > 0
            invariant
                n == all.len(),
                scanned@ == all.take(scanned@.len() as int),
                rev@.len() + scanned@.len() == n,
                forall|j: int| 0 <= j < rev@.len() ==> #[trigger] rev@[j] == all[n - 1 - j],
            decreases scanned@.len(),
        {
            let e = scanned.pop().unwrap();
            rev.push(e);
            assert(all.take(scanned@.len() as int) =~= all.take(scanned@.len() + 1 as int).drop_last());
        }
        let mut i: usize = 0;
        while rev.len() > 0
            invariant
                n == all.len(),
                i + rev@.len() == n,
                forall|j: int| 0 <= j < rev@.len() ==> #[trigger] rev@[j] == all[n - 1 - j],
                self.fans.wf(),
                self.fans@ == inserted_all(Map::empty(), fans_view(all.take(i as int))),
                forall|k: Seq<char>| #[trigger] self.fans@.contains_key(k) ==> self.fans@[k].id == k,
                self.curves == old(self).curves,
                self.custom_labels == old(self).custom_labels,
                self.custom_profile == old(self).custom_profile,
            decreases rev@.len(),
        {
            let f = rev.pop().unwrap();
            proof {
                assert(f == all[i as int]);
                assert(fans_view(all.take(i + 1)).drop_last() =~= fans_view(all.take(i as int)));
                assert(fans_view(all.take(i + 1)).last() == (f.id@, f@));
            }
            let id = f.id.clone();
            self.fans.insert(id, f);
            i = i + 1;
        }
        assert(all.take(n as int) =~= all);
    }

    /// Every fan, in order, each with its custom label when it has one.
    pub fn get_all_fans(&self) -> (r: Vec<FanInfo>)
        requires
            self.wf(),
        ensures
            r@.len() == self.fan_order().len(),
            forall|i: int|
                0 <= i < r@.len() ==> #[trigger] r@[i]@ == displayed(self.fan_order()[i].1, self@.labels),
    {
        let mut r: Vec<FanInfo> = Vec::new();
        let mut i: usize = 0;
        proof {
            self.fans.lemma_order();
        }
        while i < self.fans.len()
            invariant
                self.wf(),
                i <= self.fan_order().len(),
                r@.len() == i,
                forall|j: int| 0 <= j < i ==> #[trigger] r@[j]@ == displayed(self.fan_order()[j].1, self@.labels),
            decreases self.fan_order().len() - i,
        {
            let f = self.fans.value(i);
            let mut shown = f.duplicate();
            match self.custom_labels.get(f.id.as_str()) {
                Some(label) => {
                    shown.label = label.clone();
                },
                None => {},
            }
            r.push(shown);
            i = i + 1;
        }
        r
    }

    /// The saved Custom profile curves of all fans.
    pub fn get_custom_profile(&self) -> (p: &Table<Vec<CurvePoint>>)
        requires
            self.wf(),
        ensures
            p.wf(),
            p@ == self@.profile,
    {
        &self.custom_profile
    }

    /// The custom labels as the labels file holds them: a pretty-printed JSON object.
    pub fn labels_json(&self) -> (s: String)
        requires
            self.wf(),
        ensures
            s@ == pretty_json_string_map(self.label_order()),
    {
        let mut entries: Vec<(String, String)> = Vec::new();
        let ghost order = self.custom_labels.order();
        let n = self.custom_labels.len();
        let mut i: usize = 0;
        while i < n
            invariant
                n == order.len(),
                i <= n,
                order == self.custom_labels.order(),
                string_pairs_view(entries@) == order.take(i as int),
            decreases n - i,
        {
            let k = self.custom_labels.key(i).clone();
            let v = self.custom_labels.value(i).clone();
            let ghost old_entries = entries@;
            assert(k@ == order[i as int].0);
            assert(v@ == order[i as int].1);
            entries.push((k, v));
            proof {
                assert(string_pairs_view(entries@) =~= string_pairs_view(old_entries).push(order[i as int]));
                assert(order.take(i + 1) =~= order.take(i as int).push(order[i as int]));
            }
            i = i + 1;
        }
        proof {
            assert(order.take(n as int) =~= order);
            self.custom_labels.lemma_order();
        }
        string_map_to_json(&entries)
    }

    /// Saves one fan's curve into the Custom profile (the caller writes the
    /// profile to disk).
    pub fn save_custom_curve(&mut self, fan_id: &str, points: Vec<CurvePoint>)
        requires
            old(self).wf(),
        ensures
            final(self).wf(),
            final(self)@ == (ControllerView { profile: old(self)@.profile.insert(fan_id@, points@), ..old(self)@ }),
    {
        self.custom_profile.insert(String::from_str(fan_id), points);
    }

    /// Gives a fan a custom label (the caller writes the labels to disk).
    pub fn rename_fan(&mut self, fan_id: &str, label: String)
        requires
            old(self).wf(),
        ensures
            final(self).wf(),
            final(self)@ == rename_spec(old(self)@, fan_id@, label@),
    {
        self.custom_labels.insert(String::from_str(fan_id), label);
    }

    /// Sets the mode of a known fan, and its speed when one is given.
    fn restate(&mut self, fan_id: &str, mode: FanMode, speed: Option<u8>)
        requires
            old(self).wf(),
        ensures
            final(self).wf(),
            final(self)@ == (ControllerView { fans: restate_fan(old(self)@.fans, fan_id@, mode, speed), ..old(self)@ }),
    {
        match self.fans.get(fan_id) {
            Some(f) => {
                let mut g = f.duplicate();
                g.mode = mode;
                match speed {
                    Some(s) => {
                        g.speed_pct = Some(s);
                    },
                    None => {},
                }
                let key = String::from_str(fan_id);
                proof {
                    assert(g@ == restated(self@.fans[fan_id@], mode, speed));
                }
                self.fans.insert(key, g);
                proof {
                    assert(self@.fans =~= restate_fan(old(self)@.fans, fan_id@, mode, speed));
                }
            },
            None => {
                assert(self@.fans =~= restate_fan(old(self)@.fans, fan_id@, mode, speed));
            },
        }
    }

    /// Applies a fan curve to a fan: refused unless it has at least two points
    /// sorted strictly by temperature.
    pub fn set_curve(&mut self, fan_id: &str, points: Vec<CurvePoint>) -> (r: Result<(), CurveError>)
        requires
            old(self).wf(),
        ensures
            final(self).wf(),
            r == check_curve_spec(points@),
            final(self)@ == set_curve_spec(old(self)@, fan_id@, points@),
    {
        match check_curve(points.as_slice()) {
            Err(e) => {
                return Err(e);
            },
            Ok(()) => {},
        }
        self.curves.insert(String::from_str(fan_id), points);
        self.restate(fan_id, FanMode::Curve, None);
        Ok(())
    }

    /// The percentage a fixed speed request for `pct` is carried out with: at most 100.
    pub fn fixed_speed_pct(pct: u8) -> (p: u8)
        ensures
            p == fixed_pct_spec(pct),
    {
        if pct <= 100 {
            pct
        } else {
            100
        }
    }

    /// Records the outcome of a fixed speed request. The caller has asked the
    /// backends in turn to run the fan at `fixed_speed_pct(pct)` until one
    /// accepted, and hands in each answer in order.
    pub fn set_fixed_speed(&mut self, fan_id: &str, pct: u8, attempts: &Vec<Result<(), String>>) -> (r:
        Result<(), String>)
        requires
            old(self).wf(),
        ensures
            final(self).wf(),
            r is Ok == any_ok(attempts@),
            r matches Err(m) ==> m@ == last_error(attempts@),
            r is Ok ==> final(self)@ == (ControllerView {
                fans: restate_fan(old(self)@.fans, fan_id@, FanMode::Fixed, Some(fixed_pct_spec(pct))),
                ..old(self)@
            }),
            r is Err ==> final(self)@ == old(self)@,
    {
        let p = Self::fixed_speed_pct(pct);
        let mut last_err = String::new();
        let mut i: usize = 0;
        while i < attempts.len()
            invariant
                i <= attempts@.len(),
                self.wf(),
                self@ == old(self)@,
                p == fixed_pct_spec(pct),
                forall|j: int| 0 <= j < i ==> !(#[trigger] attempts@[j] is Ok),
                i == 0 ==> last_err@ == Seq::<char>::empty(),
                i > 0 ==> last_err@ == attempts@[i - 1]->Err_0@,
            decreases attempts@.len() - i,
        {
            match &attempts[i] {
                Ok(()) => {
                    let ghost before = self@;
                    self.restate(fan_id, FanMode::Fixed, Some(p));
                    assert(before == old(self)@);
                    assert(p == fixed_pct_spec(pct));
                    assert(self@ == (ControllerView {
                        fans: restate_fan(before.fans, fan_id@, FanMode::Fixed, Some(p)),
                        ..before
                    }));
                    return Ok(());
                },
                Err(e) => {
                    last_err = e.clone();
                },
            }
            i = i + 1;
        }
        Err(last_err)
    }

    /// Hands a fan back to automatic control: its curve is dropped and it is
    /// marked auto (the caller has asked every backend to reset it).
    pub fn reset_to_default(&mut self, fan_id: &str)
        requires
            old(self).wf(),
        ensures
            final(self).wf(),
            final(self)@ == reset_spec(old(self)@, fan_id@),
    {
        self.curves.remove(fan_id);
        self.restate(fan_id, FanMode::Auto, None);
    }

    /// The speeds this tick drives curve-controlled fans at: for each fan with
    /// an active curve and a known temperature, the curve's speed at that temperature.
    pub fn tick(&self) -> (plan: Table<u8>)
        requires
            self.wf(),
        ensures
            plan.wf(),
            plan@ == plan_spec(self@),
    {
        let mut plan: Table<u8> = Table::new();
        let ghost v = self@;
        let ghost order = self.curves.order();
        proof {
            self.curves.lemma_order();
        }
        let mut i: usize = 0;
        while i < self.curves.len()
            invariant
                self.wf(),
                v == self@,
                order == self.curves.order(),
                i <= order.len(),
                plan.wf(),
                plan@ == Map::new(
                    |k: Seq<char>| plan_spec(v).contains_key(k) && crate::table::keys_of(order.take(i as int)).contains(k),
                    |k: Seq<char>| plan_spec(v)[k],
                ),
                crate::table::keys_of(order).no_duplicates(),
                forall|q: int|
                    0 <= q < order.len() ==> #[trigger] v.curves.contains_key(order[q].0) && v.curves[order[q].0]
                        == order[q].1,
                forall|k: Seq<char>|
                    #[trigger] v.curves.contains_key(k) ==> exists|q: int| 0 <= q < order.len() && #[trigger] order[q].0 == k,
            decreases order.len() - i,
        {
            let key = self.curves.key(i);
            let ghost k = key@;
            let ghost prev = plan@;
            proof {
                assert(crate::table::keys_of(order)[i as int] == k);
                assert(crate::table::keys_of(order.take(i + 1)) =~= crate::table::keys_of(order.take(i as int)).push(k));
                crate::table::lemma_push_contains(crate::table::keys_of(order.take(i as int)), k);
                if crate::table::keys_of(order.take(i as int)).contains(k) {
                    let q = choose|q: int| 0 <= q < i && crate::table::keys_of(order.take(i as int))[q] == k;
                    assert(crate::table::keys_of(order)[q] == k);
                }
            }
            match self.fans.get(key.as_str()) {
                Some(f) => {
                    match f.temp_milli_c {
                        Some(t) => {
                            let pts = self.curves.value(i);
                            proof {
                                assert(v.curves.contains_key(k));
                                assert(pts@ == v.curves[k]);
                                assert(valid_curve(v.curves[k]));
                            }
                            let speed = interpolate_curve(pts.as_slice(), t);
                            proof {
                                assert(plan_spec(v).contains_key(k));
                                assert(plan_spec(v)[k] == speed);
                            }
                            plan.insert(key.clone(), speed);
                            proof {
                                assert(plan@ =~= Map::new(
                                    |k2: Seq<char>| plan_spec(v).contains_key(k2) && crate::table::keys_of(order.take(i + 1)).contains(k2),
                                    |k2: Seq<char>| plan_spec(v)[k2],
                                ));
                            }
                        },
                        None => {
                            assert(!plan_spec(v).contains_key(k));
                            assert(plan@ =~= Map::new(
                                |k2: Seq<char>| plan_spec(v).contains_key(k2) && crate::table::keys_of(order.take(i + 1)).contains(k2),
                                |k2: Seq<char>| plan_spec(v)[k2],
                            ));
                        },
                    }
                },
                None => {
                    assert(plan@ =~= Map::new(
                        |k2: Seq<char>| plan_spec(v).contains_key(k2) && crate::table::keys_of(order.take(i + 1)).contains(k2),
                        |k2: Seq<char>| plan_spec(v)[k2],
                    ));
                },
            }
            i = i + 1;
        }
        proof {
            assert(order.take(order.len() as int) =~= order);
            assert forall|k: Seq<char>| plan_spec(v).contains_key(k) implies crate::table::keys_of(order).contains(k) by {
                let q = choose|q: int| 0 <= q < order.len() && #[trigger] order[q].0 == k;
                assert(crate::table::keys_of(order)[q] == k);
            }
            assert(plan@ =~= plan_spec(v));
        }
        plan
    }

    /// The backend to ask next for a speed, among `n` backends asked in order,
    /// given the answers so far: `None` once one accepted or all were asked.
    pub fn next_backend(answers: &Vec<Result<(), String>>, n: usize) -> (a: Option<usize>)
        ensures
            a matches Some(i) ==> next_backend_spec(answers@, n as nat) == Some(i as nat),
            a is None ==> next_backend_spec(answers@, n as nat) is None,
    {
        let mut i: usize = 0;
        while i < answers.len()
            invariant
                i <= answers@.len(),
                forall|j: int| 0 <= j < i ==> !(#[trigger] answers@[j] is Ok),
            decreases answers@.len() - i,
        {
            if answers[i].is_ok() {
                return None;
            }
            i = i + 1;
        }
        if answers.len() >= n {
            None
        } else {
            Some(answers.len())
        }
    }

    /// The backend to ask next to reset a fan, when `asked` of the `n` backends
    /// have been asked: every one in turn, whatever it answered.
    pub fn next_reset_backend(asked: usize, n: usize) -> (a: Option<usize>)
        ensures
            a matches Some(i) ==> next_reset_backend_spec(asked as nat, n as nat) == Some(i as nat),
            a is None ==> next_reset_backend_spec(asked as nat, n as nat) is None,
    {
        if asked < n {
            Some(asked)
        } else {
            None
        }
    }

    /// Records the outcome of driving a fan at its curve speed this tick. The
    /// caller has asked the backends as `next_backend` directs and hands in their
    /// answers: when one accepted, the fan is in curve mode at that speed;
    /// otherwise nothing changes.
    pub fn record_curve_speed(&mut self, fan_id: &str, speed: u8, answers: &Vec<Result<(), String>>)
        requires
            old(self).wf(),
        ensures
            final(self).wf(),
            any_ok(answers@) ==> final(self)@ == (ControllerView {
                fans: restate_fan(old(self)@.fans, fan_id@, FanMode::Curve, Some(speed)),
                ..old(self)@
            }),
            !any_ok(answers@) ==> final(self)@ == old(self)@,
    {
        let mut i: usize = 0;
        while i < answers.len()
            invariant
                i <= answers@.len(),
                self.wf(),
                self@ == old(self)@,
                forall|j: int| 0 <= j < i ==> !(#[trigger] answers@[j] is Ok),
            decreases answers@.len() - i,
        {
            if answers[i].is_ok() {
                self.restate(fan_id, FanMode::Curve, Some(speed));
                return;
            }
            i = i + 1;
        }
        assert(!any_ok(answers@));
    }

    /// The ids of all known fans, in order.
    pub fn fan_ids(&self) -> (ids: Vec<String>)
        requires
            self.wf(),
        ensures
            ids@.len() == self.fan_order().len(),
            forall|i: int| 0 <= i < ids@.len() ==> #[trigger] ids@[i]@ == self.fan_order()[i].0,
            forall|k: Seq<char>| #[trigger] self@.fans.contains_key(k) ==> crate::hardware::linux::strs_view(ids@).contains(k),
    {
        let mut ids: Vec<String> = Vec::new();
        let mut i: usize = 0;
        proof {
            self.lemma_fan_order();
        }
        while i < self.fans.len()
            invariant
                self.wf(),
                i <= self.fan_order().len(),
                ids@.len() == i,
                forall|j: int| 0 <= j < i ==> #[trigger] ids@[j]@ == self.fan_order()[j].0,
            decreases self.fan_order().len() - i,
        {
            ids.push(self.fans.key(i).clone());
            i = i + 1;
        }
        proof {
            assert forall|k: Seq<char>| #[trigger] self@.fans.contains_key(k) implies crate::hardware::linux::strs_view(
                ids@,
            ).contains(k) by {
                let i = choose|i: int| 0 <= i < self.fan_order().len() && #[trigger] self.fan_order()[i].0 == k;
                assert(crate::hardware::linux::strs_view(ids@)[i] == k);
            }
        }
        ids
    }

    /// Hands each fan of `ids` back to automatic control in turn, as "Reset
    /// All" and the daemon's exit do with the ids of all known fans.
    pub fn reset_all(&mut self, ids: &Vec<String>)
        requires
            old(self).wf(),
        ensures
            final(self).wf(),
            final(self)@ == reset_all_spec(old(self)@, crate::hardware::linux::strs_view(ids@)),
    {
        let ghost v = self@;
        let mut i: usize = 0;
        while i < ids.len()
            invariant
                i <= ids@.len(),
                self.wf(),
                self@ == reset_all_spec(v, crate::hardware::linux::strs_view(ids@).take(i as int)),
            decreases ids@.len() - i,
        {
            proof {
                let sv = crate::hardware::linux::strs_view(ids@);
                assert(sv.take(i + 1).drop_last() =~= sv.take(i as int));
                assert(sv.take(i + 1).last() == ids@[i as int]@);
            }
            self.reset_to_default(ids[i].as_str());
            i = i + 1;
        }
        proof {
            assert(crate::hardware::linux::strs_view(ids@).take(ids@.len() as int) =~= crate::hardware::linux::strs_view(ids@));
        }
    }

    /// Puts every saved Custom profile curve with at least two points into
    /// effect, as the background daemon does at start-up; curves that
    /// `set_curve` refuses are skipped.
    pub fn apply_custom_profile(&mut self)
        requires
            old(self).wf(),
        ensures
            final(self).wf(),
            final(self)@ == apply_profile_spec(old(self)@),
    {
        let ghost v = self@;
        let ghost order = self.custom_profile.order();
        proof {
            self.custom_profile.lemma_order();
        }
        let n = self.custom_profile.len();
        let mut snapshot: Vec<(String, Vec<CurvePoint>)> = Vec::new();
        let mut j: usize = 0;
        while j < n
            invariant
                n == order.len(),
                j <= n,
                order == self.custom_profile.order(),
                snapshot@.len() == j,
                forall|q: int| 0 <= q < j ==> (#[trigger] snapshot@[q]).0@ == order[q].0 && snapshot@[q].1@ == order[q].1,
            decreases n - j,
        {
            let key = self.custom_profile.key(j).clone();
            let pts = crate::hardware::types::copy_points(self.custom_profile.value(j).as_slice());
            snapshot.push((key, pts));
            j = j + 1;
        }
        let mut i: usize = 0;
        while i < n
            invariant
                self.wf(),
                n == order.len(),
                i <= n,
                snapshot@.len() == n,
                forall|q: int| 0 <= q < n ==> (#[trigger] snapshot@[q]).0@ == order[q].0 && snapshot@[q].1@ == order[q].1,
                self@.profile == v.profile,
                self@.labels == v.labels,
                forall|q: int|
                    0 <= q < order.len() ==> #[trigger] v.profile.contains_key(order[q].0) && v.profile[order[q].0]
                        == order[q].1,
                forall|k: Seq<char>|
                    #[trigger] v.profile.contains_key(k) ==> exists|q: int| 0 <= q < order.len() && #[trigger] order[q].0 == k,
                self@.curves == Map::new(
                    |k: Seq<char>| v.curves.contains_key(k) || (usable_profile(v, k) && crate::table::keys_of(order.take(i as int)).contains(k)),
                    |k: Seq<char>|
                        if usable_profile(v, k) && crate::table::keys_of(order.take(i as int)).contains(k) {
                            v.profile[k]
                        } else {
                            v.curves[k]
                        },
                ),
                self@.fans == Map::new(
                    |k: Seq<char>| v.fans.contains_key(k),
                    |k: Seq<char>|
                        if usable_profile(v, k) && crate::table::keys_of(order.take(i as int)).contains(k) {
                            restated(v.fans[k], FanMode::Curve, None)
                        } else {
                            v.fans[k]
                        },
                ),
            decreases n - i,
        {
            let key = snapshot[i].0.clone();
            let pts = crate::hardware::types::copy_points(snapshot[i].1.as_slice());
            let ghost k = key@;
            let ghost before = self@;
            proof {
                assert(crate::table::keys_of(order.take(i + 1)) =~= crate::table::keys_of(order.take(i as int)).push(k));
                crate::table::lemma_push_contains(crate::table::keys_of(order.take(i as int)), k);
                assert(v.profile.contains_key(k));
                assert(pts@ == v.profile[k]);
            }
            if pts.len() >= 2 {
                let _ = self.set_curve(key.as_str(), pts);
            }
            proof {
                assert(self@.curves =~= Map::new(
                    |k2: Seq<char>| v.curves.contains_key(k2) || (usable_profile(v, k2) && crate::table::keys_of(order.take(i + 1)).contains(k2)),
                    |k2: Seq<char>|
                        if usable_profile(v, k2) && crate::table::keys_of(order.take(i + 1)).contains(k2) {
                            v.profile[k2]
                        } else {
                            v.curves[k2]
                        },
                ));
                assert(self@.fans =~= Map::new(
                    |k2: Seq<char>| v.fans.contains_key(k2),
                    |k2: Seq<char>|
                        if usable_profile(v, k2) && crate::table::keys_of(order.take(i + 1)).contains(k2) {
                            restated(v.fans[k2], FanMode::Curve, None)
                        } else {
                            v.fans[k2]
                        },
                ));
            }
            i = i + 1;
        }
        proof {
            assert(order.take(n as int) =~= order);
            assert forall|k: Seq<char>| usable_profile(v, k) implies crate::table::keys_of(order).contains(k) by {
                let q = choose|q: int| 0 <= q < order.len() && #[trigger] order[q].0 == k;
                assert(crate::table::keys_of(order)[q] == k);
            }
            assert(self@.curves =~= apply_profile_spec(v).curves);
            assert(self@.fans =~= apply_profile_spec(v).fans);
        }
    }
}

} // verus!
