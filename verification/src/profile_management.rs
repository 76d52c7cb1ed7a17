//! The profile panel: which profile a failed turn retries with, how long it
//! waits, how profiles are described, and the fallback route editor.
use vstd::prelude::*;
use vstd::string::*;
use crate::app_event::{AppEvent, RuntimeProfileTarget};
use crate::selection::{
    PopupHint, SelectionItem, SelectionItemView, SelectionViewParams, item_views,
    lemma_item_views_push, single_action,
};
use crate::text::{
    views, opt_view, concat2, concat3, decimal_seq, decimal_string, join_seq, join_strings,
    lemma_views_push, trim_seq, trim_str, contains_str, str_eq, text_lines, lines_of,
    copy_opt_string, split_pieces, lemma_split_pieces_nonempty, lemma_split_concat, lemma_split_join,
    lemma_trim_unchanged, is_white_space,
};
use crate::workflow_definition::WorkflowDuration;
use crate::workflow_scheduler::{lemma_insert_sorted, sorted_insert_position, sorted_strings};

verus! {

/// One profile of the fallback route.
#[derive(Debug, PartialEq, Eq)]
pub struct ProfileRouteEntry {
    pub profile_id: String,
}

/// The fallback route: the profiles to fall back to, in order, and the one
/// active now.
#[derive(Debug, PartialEq, Eq)]
pub struct ProfileRouterState {
    pub version: u32,
    pub active_profile_id: Option<String>,
    pub routes: Vec<ProfileRouteEntry>,
}

impl ProfileRouterState {
    /// The ids of the route, in order.
    pub open spec fn route_ids(&self) -> Seq<Seq<char>> {
        self.routes@.map_values(|e: ProfileRouteEntry| e.profile_id@)
    }

    /// An empty route of the current version.
    pub fn new() -> (r: Self)
        ensures
            r.version == 1,
            r.active_profile_id is None,
            r.routes@.len() == 0,
    {
        ProfileRouterState { version: 1, active_profile_id: None, routes: Vec::new() }
    }
}

/// What a failed turn asks of the fallback route.
#[derive(Debug, Clone, Copy, PartialEq, Eq, Structural)]
pub enum ProfileFallbackAction {
    RetrySameProfileFirst,
    SwitchProfileImmediately,
}

/// A named profile of the configuration, as the panel shows it.
#[derive(Debug, PartialEq, Eq)]
pub struct RoutedProfileSummary {
    pub id: String,
    pub provider_label: String,
    pub model: Option<String>,
    pub base_url: Option<String>,
    pub route_position: Option<usize>,
}

/// The root configuration, as the panel shows it.
#[derive(Debug, PartialEq, Eq)]
pub struct DefaultProfileSummary {
    pub provider_label: String,
    pub model: Option<String>,
    pub base_url: Option<String>,
}

/// The seconds to wait before fallback attempt `attempt`: none for the first
/// two, then doubling from one second, at most thirty.
pub open spec fn profile_retry_delay_secs(attempt: u32) -> nat {
    if attempt <= 1 {
        0
    } else {
        let e: nat = if attempt - 2 > 5 { 5 } else { (attempt - 2) as nat };
        let s = vstd::arithmetic::power2::pow2(e);
        if s > 30 { 30 } else { s }
    }
}

/// The delay before fallback attempt `attempt`.
pub fn profile_fallback_retry_delay(attempt: u32) -> (r: WorkflowDuration)
    ensures
        r.secs == profile_retry_delay_secs(attempt),
        r.nanos == 0,
{
    proof {
        vstd::arithmetic::power2::lemma2_to64();
    }
    if attempt <= 1 {
        return WorkflowDuration { secs: 0, nanos: 0 };
    }
    let e: u32 = if attempt - 2 > 5 { 5 } else { attempt - 2 };
    let secs: u64 = if e == 0 {
        1
    } else if e == 1 {
        2
    } else if e == 2 {
        4
    } else if e == 3 {
        8
    } else if e == 4 {
        16
    } else {
        30
    };
    WorkflowDuration { secs, nanos: 0 }
}

/// The profile after `active` in the route: the first entry when `active`
/// is not in the route, none when it is the last.
pub open spec fn next_route_profile(route: Seq<Seq<char>>, active: Option<Seq<char>>) -> Option<Seq<char>> {
    match active {
        Some(a) => if route.contains(a) {
            let i = first_index(route, a);
            if i + 1 < route.len() {
                Some(route[i + 1])
            } else {
                None
            }
        } else if route.len() > 0 {
            Some(route[0])
        } else {
            None
        },
        None => if route.len() > 0 {
            Some(route[0])
        } else {
            None
        },
    }
}

/// The profile after the active one is the entry right after the active
/// profile's first place in the route; the last entry has none after it; an
/// active profile outside the route, or none, falls back to the first entry.
pub proof fn lemma_next_route_profile_law(route: Seq<Seq<char>>, a: Seq<char>, i: int)
    requires
        0 <= i < route.len(),
        route[i] == a,
        forall|j: int| 0 <= j < i ==> #[trigger] route[j] != a,
    ensures
        i + 1 < route.len() ==> next_route_profile(route, Some(a)) == Some(route[i + 1]),
        i + 1 == route.len() ==> next_route_profile(route, Some(a)) is None,
{
    assert(route.contains(a));
    let k = first_index(route, a);
    assert(0 <= k < route.len() && route[k] == a && forall|j: int| 0 <= j < k ==> #[trigger] route[j] != a);
    if k < i {
        assert(route[k] != a);
    }
    if k > i {
        assert(route[i] != a);
    }
    assert(k == i);
}

/// Where the active profile is not in the route, or there is none, the next
/// profile is the route's first entry.
pub proof fn lemma_next_route_profile_outside(route: Seq<Seq<char>>, active: Option<Seq<char>>)
    requires
        route.len() > 0,
        active matches Some(a) ==> !route.contains(a),
    ensures
        next_route_profile(route, active) == Some(route[0]),
{
}

/// The first position of `a` in `route`.
pub open spec fn first_index(route: Seq<Seq<char>>, a: Seq<char>) -> int {
    choose|i: int| 0 <= i < route.len() && route[i] == a && forall|j: int| 0 <= j < i ==> #[trigger] route[j] != a
}

/// The view of an optional borrowed string.
pub open spec fn opt_str(s: Option<&str>) -> Option<Seq<char>> {
    match s {
        Some(v) => Some(v@),
        None => None,
    }
}

/// The next profile of the route after `active_profile_id`.
pub fn next_profile(router_state: &ProfileRouterState, active_profile_id: Option<&str>) -> (r: Option<String>)
    ensures
        opt_view(r) == next_route_profile(router_state.route_ids(), opt_str(active_profile_id)),
{
    let ghost route = router_state.route_ids();
    let n = router_state.routes.len();
    match active_profile_id {
        Some(a) => {
            let mut i: usize = 0;
            while i < n
                invariant
                    n == router_state.routes@.len(),
                    route == router_state.route_ids(),
                    active_profile_id == Some(a),
                    i <= n,
                    forall|k: int| 0 <= k < i ==> route[k] != a@,
                decreases n - i,
            {
                if str_eq(router_state.routes[i].profile_id.as_str(), a) {
                    proof {
                        assert(route[i as int] == a@);
                        assert(route.contains(a@));
                        assert(first_index(route, a@) == i) by {
                            assert(0 <= i < route.len() && route[i as int] == a@ && forall|j: int| 0 <= j < i ==> #[trigger] route[j] != a@);
                            let j = first_index(route, a@);
                            if j < i {
                                assert(route[j] != a@);
                            } else if j > i {
                                assert(route[i as int] != a@);
                            }
                        }
                    }
                    assert(route.len() == n);
                    assert(opt_str(active_profile_id) == Some(a@));
                    assert(first_index(route, a@) == i);
                    if i + 1 < n {
                        assert(next_route_profile(route, Some(a@)) == Some(route[i + 1]));
                        assert(route[i + 1] == router_state.routes@[i + 1].profile_id@);
                        return Some(router_state.routes[i + 1].profile_id.clone());
                    } else {
                        return None;
                    }
                }
                i = i + 1;
            }
            proof {
                assert(!route.contains(a@)) by {
                    if route.contains(a@) {
                        let j = choose|j: int| 0 <= j < route.len() && route[j] == a@;
                    }
                }
            }
            if n > 0 {
                Some(router_state.routes[0].profile_id.clone())
            } else {
                None
            }
        },
        None => if n > 0 {
            Some(router_state.routes[0].profile_id.clone())
        } else {
            None
        },
    }
}

/// The profile a failed turn retries with: the active one again when the
/// action asks for that and the same-profile retry is unused; otherwise the
/// next profile of the route, or the active one when there is none.
pub open spec fn retry_target_spec(
    action: ProfileFallbackAction,
    route: Seq<Seq<char>>,
    active: Option<Seq<char>>,
    same_profile_retry_consumed: bool,
) -> Option<Seq<char>> {
    if action == ProfileFallbackAction::RetrySameProfileFirst && !same_profile_retry_consumed {
        active
    } else {
        match next_route_profile(route, active) {
            Some(p) => Some(p),
            None => active,
        }
    }
}

/// A failed turn retries first with the active profile when the action
/// asks for that and the same-profile retry is unused; otherwise it moves to
/// the profile right after the active one's first place in the route, and
/// stays with the active profile when that is the route's last entry.
pub proof fn lemma_retry_target_law(
    action: ProfileFallbackAction,
    route: Seq<Seq<char>>,
    a: Seq<char>,
    i: int,
    same_profile_retry_consumed: bool,
)
    requires
        0 <= i < route.len(),
        route[i] == a,
        forall|j: int| 0 <= j < i ==> #[trigger] route[j] != a,
    ensures
        action == ProfileFallbackAction::RetrySameProfileFirst && !same_profile_retry_consumed
            ==> retry_target_spec(action, route, Some(a), same_profile_retry_consumed) == Some(a),
        (action != ProfileFallbackAction::RetrySameProfileFirst || same_profile_retry_consumed) && i + 1 < route.len()
            ==> retry_target_spec(action, route, Some(a), same_profile_retry_consumed) == Some(route[i + 1]),
        (action != ProfileFallbackAction::RetrySameProfileFirst || same_profile_retry_consumed) && i + 1 == route.len()
            ==> retry_target_spec(action, route, Some(a), same_profile_retry_consumed) == Some(a),
{
    lemma_next_route_profile_law(route, a, i);
}

/// The profile a failed turn retries with.
pub fn profile_fallback_retry_target(
    action: ProfileFallbackAction,
    router_state: &ProfileRouterState,
    active_profile_id: Option<&str>,
    same_profile_retry_consumed: bool,
) -> (r: Option<String>)
    ensures
        opt_view(r) == retry_target_spec(action, router_state.route_ids(), opt_str(active_profile_id), same_profile_retry_consumed),
{
    let active: Option<String> = match active_profile_id {
        Some(a) => Some(String::from_str(a)),
        None => None,
    };
    if action == ProfileFallbackAction::RetrySameProfileFirst && !same_profile_retry_consumed {
        return active;
    }
    match next_profile(router_state, active_profile_id) {
        Some(p) => Some(p),
        None => active,
    }
}

/// The name of a profile, `default` for the root configuration.
pub fn profile_label(profile_id: Option<&str>) -> (r: &str)
    ensures
        r@ == (match profile_id {
            Some(p) => p@,
            None => "default"@,
        }),
{
    match profile_id {
        Some(p) => p,
        None => "default",
    }
}

/// The parts of an endpoint's description: its provider, its base URL and
/// its model where known.
pub open spec fn endpoint_parts(provider_label: Seq<char>, base_url: Option<Seq<char>>, model: Option<Seq<char>>) -> Seq<Seq<char>> {
    let p1 = seq!["provider: "@ + provider_label];
    let p2 = match base_url {
        Some(u) => p1.push(u),
        None => p1,
    };
    match model {
        Some(m) => p2.push("model: "@ + m),
        None => p2,
    }
}

/// The parts of an endpoint's description.
fn endpoint_description_parts(provider_label: &String, base_url: &Option<String>, model: &Option<String>) -> (r: Vec<String>)
    ensures
        views(r@) == endpoint_parts(provider_label@, opt_view(*base_url), opt_view(*model)),
{
    let mut parts: Vec<String> = Vec::new();
    let first = concat2("provider: ", provider_label.as_str());
    proof {
        lemma_views_push(parts@, first);
    }
    parts.push(first);
    match base_url {
        Some(u) => {
            proof {
                lemma_views_push(parts@, *u);
            }
            parts.push(u.clone());
        },
        None => {},
    }
    match model {
        Some(m) => {
            let part = concat2("model: ", m.as_str());
            proof {
                lemma_views_push(parts@, part);
            }
            parts.push(part);
        },
        None => {},
    }
    proof {
        assert(views(parts@) =~= endpoint_parts(provider_label@, opt_view(*base_url), opt_view(*model)));
    }
    parts
}

/// The description of the root configuration.
pub fn default_profile_description(profile: &DefaultProfileSummary) -> (r: String)
    ensures
        r@ == join_seq(
            endpoint_parts(profile.provider_label@, opt_view(profile.base_url), opt_view(profile.model)).push("root config"@),
            " · "@,
        ),
{
    let mut parts = endpoint_description_parts(&profile.provider_label, &profile.base_url, &profile.model);
    let last = String::from_str("root config");
    proof {
        lemma_views_push(parts@, last);
    }
    parts.push(last);
    join_strings(parts.as_slice(), " · ")
}

/// The description of a named profile's endpoint.
pub fn profile_endpoint_description(profile: &RoutedProfileSummary) -> (r: String)
    ensures
        r@ == join_seq(endpoint_parts(profile.provider_label@, opt_view(profile.base_url), opt_view(profile.model)), " · "@),
{
    let parts = endpoint_description_parts(&profile.provider_label, &profile.base_url, &profile.model);
    join_strings(parts.as_slice(), " · ")
}

/// Where a profile stands in the fallback route.
pub open spec fn route_position_text(position: Option<usize>) -> Seq<char> {
    match position {
        Some(p) => "fallback #"@ + decimal_seq(p as nat),
        None => "not in fallback route"@,
    }
}

/// The description of a named profile: its endpoint, then its place in the route.
pub fn routed_profile_description(profile: &RoutedProfileSummary) -> (r: String)
    ensures
        r@ == join_seq(
            endpoint_parts(profile.provider_label@, opt_view(profile.base_url), opt_view(profile.model)),
            " · "@,
        ) + " · "@ + route_position_text(profile.route_position),
{
    let endpoint = profile_endpoint_description(profile);
    let position = match profile.route_position {
        Some(p) => {
            let n = decimal_string(p as u128);
            concat2("fallback #", n.as_str())
        },
        None => String::from_str("not in fallback route"),
    };
    concat3(endpoint.as_str(), " · ", position.as_str())
}

/// The summary of the fallback route.
pub open spec fn fallback_summary_spec(route_len: nat, active: Option<Seq<char>>) -> Seq<char> {
    if route_len == 0 {
        "No profiles in the fallback route."@
    } else {
        decimal_seq(route_len) + " profile(s) in route · active fallback: "@ + match active {
            Some(a) => a,
            None => "none"@,
        }
    }
}

/// A one-line summary of the fallback route.
pub fn root_fallback_summary(router_state: &ProfileRouterState) -> (r: String)
    ensures
        r@ == fallback_summary_spec(router_state.routes@.len(), opt_view(router_state.active_profile_id)),
{
    let n = router_state.routes.len();
    if n == 0 {
        String::from_str("No profiles in the fallback route.")
    } else {
        let count = decimal_string(n as u128);
        let mut s = concat2(count.as_str(), " profile(s) in route · active fallback: ");
        match &router_state.active_profile_id {
            Some(a) => s.append(a.as_str()),
            None => s.append("none"),
        }
        s
    }
}

/// The route after the editor's order was saved: the given ids, in order;
/// the active profile kept only when it is among them.
pub fn rewritten_router_state(previous_state: &ProfileRouterState, ordered_profile_ids: Vec<String>) -> (r:
    ProfileRouterState)
    ensures
        r.version == 1,
        r.route_ids() == views(ordered_profile_ids@),
        opt_view(r.active_profile_id) == (match previous_state.active_profile_id {
            Some(a) => if views(ordered_profile_ids@).contains(a@) {
                Some(a@)
            } else {
                None
            },
            None => None,
        }),
{
    let active_profile_id = match &previous_state.active_profile_id {
        Some(a) => if contains_str(ordered_profile_ids.as_slice(), a.as_str()) {
            Some(a.clone())
        } else {
            None
        },
        None => None,
    };
    let ghost ids = views(ordered_profile_ids@);
    let total = ordered_profile_ids.len();
    let mut routes: Vec<ProfileRouteEntry> = Vec::new();
    let mut rest = ordered_profile_ids;
    let mut taken: usize = 0;
    while rest.len() > 0
        invariant
            taken + rest@.len() == ids.len(),
            ids.len() == total,
            views(rest@) == ids.subrange(taken as int, ids.len() as int),
            routes@.map_values(|e: ProfileRouteEntry| e.profile_id@) == ids.take(taken as int),
        decreases rest@.len(),
    {
        let ghost before = rest@;
        assert(taken < ids.len());
        let id = rest.remove(0);
        proof {
            assert(views(before)[0] == id@);
            assert(views(rest@) =~= views(before).drop_first());
        }
        let ghost old_routes = routes@;
        routes.push(ProfileRouteEntry { profile_id: id });
        proof {
            assert(routes@.map_values(|e: ProfileRouteEntry| e.profile_id@) =~= old_routes.map_values(|e: ProfileRouteEntry| e.profile_id@).push(ids[taken as int]));
            assert(ids.take(taken + 1) =~= ids.take(taken as int).push(ids[taken as int]));
        }
        taken = taken + 1;
    }
    proof {
        assert(ids.take(taken as int) =~= ids);
    }
    ProfileRouterState { version: 1, active_profile_id, routes }
}


/// The message for a line naming a profile that is not defined.
pub open spec fn unknown_profile_message(line: Seq<char>) -> Seq<char> {
    "Unknown profile `"@ + line
        + "` in fallback config. Keep only profiles currently defined in config.toml."@
}

/// The message for a profile named twice.
pub open spec fn duplicate_profile_message(line: Seq<char>) -> Seq<char> {
    "Duplicate profile `"@ + line + "` in fallback config. Each profile must appear exactly once."@
}

/// One line of the route editor: blank lines and `#` comments are skipped;
/// any other line, trimmed, must name a defined profile not named before.
pub open spec fn route_line_step(acc: Seq<Seq<char>>, line: Seq<char>, expected: Seq<Seq<char>>) -> Result<
    Seq<Seq<char>>,
    Seq<char>,
> {
    let t = trim_seq(line);
    if t.len() == 0 || t[0] == '#' {
        Ok(acc)
    } else if !expected.contains(t) {
        Err(unknown_profile_message(t))
    } else if acc.contains(t) {
        Err(duplicate_profile_message(t))
    } else {
        Ok(acc.push(t))
    }
}

/// The route the editor's lines give, or the first line's error.
pub open spec fn parse_route_lines(lines: Seq<Seq<char>>, expected: Seq<Seq<char>>) -> Result<
    Seq<Seq<char>>,
    Seq<char>,
>
    decreases lines.len(),
{
    if lines.len() == 0 {
        Ok(Seq::empty())
    } else {
        match parse_route_lines(lines.drop_last(), expected) {
            Err(e) => Err(e),
            Ok(acc) => route_line_step(acc, lines.last(), expected),
        }
    }
}

/// An error in the first `k` lines is the error of all of them.
proof fn lemma_route_error_stays(lines: Seq<Seq<char>>, expected: Seq<Seq<char>>, k: nat)
    requires
        k <= lines.len(),
        parse_route_lines(lines.take(k as int), expected) is Err,
    ensures
        parse_route_lines(lines, expected) == parse_route_lines(lines.take(k as int), expected),
    decreases lines.len() - k,
{
    if k == lines.len() {
        assert(lines.take(k as int) =~= lines);
    } else {
        assert(lines.take((k + 1) as int).drop_last() =~= lines.take(k as int));
        lemma_route_error_stays(lines, expected, k + 1);
    }
}

/// The lines of the route editor that name profiles: each line trimmed,
/// blank lines and `#` comments left out, in order.
pub open spec fn kept_route_lines(lines: Seq<Seq<char>>) -> Seq<Seq<char>>
    decreases lines.len(),
{
    if lines.len() == 0 {
        Seq::empty()
    } else {
        let rest = kept_route_lines(lines.drop_last());
        let t = trim_seq(lines.last());
        if t.len() == 0 || t[0] == '#' {
            rest
        } else {
            rest.push(t)
        }
    }
}

/// Kept line `i` of `kept` names a profile that `ids` does not hold, or one
/// an earlier kept line names.
pub open spec fn bad_route_line(kept: Seq<Seq<char>>, ids: Seq<Seq<char>>, i: int) -> bool {
    !ids.contains(kept[i]) || kept.take(i).contains(kept[i])
}

/// The message for the bad kept line `line`.
pub open spec fn bad_route_line_message(ids: Seq<Seq<char>>, line: Seq<char>) -> Seq<char> {
    if !ids.contains(line) {
        unknown_profile_message(line)
    } else {
        duplicate_profile_message(line)
    }
}

/// The route the editor's lines give, told by their kept lines.
proof fn lemma_route_lines_by_kept(lines: Seq<Seq<char>>, ids: Seq<Seq<char>>)
    ensures
        (forall|i: int| 0 <= i < kept_route_lines(lines).len() ==> !#[trigger] bad_route_line(kept_route_lines(lines), ids, i))
            ==> parse_route_lines(lines, ids) == Ok::<Seq<Seq<char>>, Seq<char>>(kept_route_lines(lines)),
        forall|i: int|
            0 <= i < kept_route_lines(lines).len() && #[trigger] bad_route_line(kept_route_lines(lines), ids, i)
                && (forall|j: int| 0 <= j < i ==> !bad_route_line(kept_route_lines(lines), ids, j))
                ==> parse_route_lines(lines, ids) == Err::<Seq<Seq<char>>, Seq<char>>(
                    bad_route_line_message(ids, kept_route_lines(lines)[i]),
                ),
    decreases lines.len(),
{
    if lines.len() > 0 {
        let prev = lines.drop_last();
        lemma_route_lines_by_kept(prev, ids);
        let kp = kept_route_lines(prev);
        let kl = kept_route_lines(lines);
        let t = trim_seq(lines.last());
        if t.len() == 0 || t[0] == '#' {
            assert(kl == kp);
        } else {
            assert(kl == kp.push(t));
            assert forall|i: int| 0 <= i < kp.len() implies (bad_route_line(kl, ids, i) <==> #[trigger] bad_route_line(kp, ids, i)) by {
                assert(kl[i] == kp[i]);
                assert(kl.take(i) =~= kp.take(i));
            }
            assert(kl.take(kp.len() as int) =~= kp);
            let n = kp.len() as int;
            assert(kl[n] == t);
            if forall|i: int| 0 <= i < kl.len() ==> !#[trigger] bad_route_line(kl, ids, i) {
                assert forall|i: int| 0 <= i < kp.len() implies !#[trigger] bad_route_line(kp, ids, i) by {
                    assert(!bad_route_line(kl, ids, i));
                }
                assert(!bad_route_line(kl, ids, n));
                assert(parse_route_lines(prev, ids) == Ok::<Seq<Seq<char>>, Seq<char>>(kp));
            }
            assert forall|i: int|
                0 <= i < kl.len() && #[trigger] bad_route_line(kl, ids, i)
                    && (forall|j: int| 0 <= j < i ==> !bad_route_line(kl, ids, j))
                    implies parse_route_lines(lines, ids) == Err::<Seq<Seq<char>>, Seq<char>>(
                        bad_route_line_message(ids, kl[i]),
                    ) by {
                if i < n {
                    assert(bad_route_line(kp, ids, i));
                    assert forall|j: int| 0 <= j < i implies !bad_route_line(kp, ids, j) by {
                        assert(!bad_route_line(kl, ids, j));
                    }
                    assert(kl[i] == kp[i]);
                } else {
                    assert forall|j: int| 0 <= j < kp.len() implies !#[trigger] bad_route_line(kp, ids, j) by {
                        assert(!bad_route_line(kl, ids, j));
                    }
                    assert(parse_route_lines(prev, ids) == Ok::<Seq<Seq<char>>, Seq<char>>(kp));
                }
            }
        }
    }
}

/// The route editor's contents give the profiles their kept lines name, in
/// order, when each names a defined profile and none repeats one; profiles
/// left out are allowed.
pub proof fn lemma_route_editor_accepts_kept_lines(contents: Seq<char>, ids: Seq<Seq<char>>)
    requires
        forall|i: int| 0 <= i < kept_route_lines(text_lines(contents)).len()
            ==> !#[trigger] bad_route_line(kept_route_lines(text_lines(contents)), ids, i),
    ensures
        parse_route_lines(text_lines(contents), ids)
            == Ok::<Seq<Seq<char>>, Seq<char>>(kept_route_lines(text_lines(contents))),
{
    lemma_route_lines_by_kept(text_lines(contents), ids);
}

/// The route editor's contents fail on their first kept line that names an
/// unknown profile, or one named before, with that line's message.
pub proof fn lemma_route_editor_first_bad_line(contents: Seq<char>, ids: Seq<Seq<char>>, i: int)
    requires
        0 <= i < kept_route_lines(text_lines(contents)).len(),
        bad_route_line(kept_route_lines(text_lines(contents)), ids, i),
        forall|j: int| 0 <= j < i ==> !#[trigger] bad_route_line(kept_route_lines(text_lines(contents)), ids, j),
    ensures
        parse_route_lines(text_lines(contents), ids) == Err::<Seq<Seq<char>>, Seq<char>>(
            bad_route_line_message(ids, kept_route_lines(text_lines(contents))[i]),
        ),
{
    lemma_route_lines_by_kept(text_lines(contents), ids);
}

/// The profiles the editor's contents list, in order; fails on the first
/// line that names an unknown profile or repeats one.
pub fn parse_fallback_route_editor_contents(contents: &str, current_profile_ids: &[String]) -> (r: Result<
    Vec<String>,
    String,
>)
    ensures
        match r {
            Ok(v) => parse_route_lines(text_lines(contents@), views(current_profile_ids@)) == Ok::<Seq<Seq<char>>, Seq<char>>(views(v@)),
            Err(e) => parse_route_lines(text_lines(contents@), views(current_profile_ids@)) == Err::<Seq<Seq<char>>, Seq<char>>(e@),
        },
{
    let lines = lines_of(contents);
    let ghost all = views(lines@);
    let ghost expected = views(current_profile_ids@);
    let mut ordered: Vec<String> = Vec::new();
    let mut k: usize = 0;
    assert(all.take(0) =~= Seq::<Seq<char>>::empty());
    assert(views(ordered@) =~= Seq::<Seq<char>>::empty());
    while k < lines.len()
        invariant
            all == views(lines@),
            all == text_lines(contents@),
            expected == views(current_profile_ids@),
            k <= lines@.len(),
            parse_route_lines(all.take(k as int), expected) == Ok::<Seq<Seq<char>>, Seq<char>>(views(ordered@)),
        decreases lines@.len() - k,
    {
        assert(all.take(k + 1).drop_last() =~= all.take(k as int));
        assert(all.take(k + 1).last() == lines@[k as int]@);
        let line = trim_str(lines[k].as_str());
        let skip = line.unicode_len() == 0 || line.get_char(0) == '#';
        if !skip {
            if !contains_str(current_profile_ids, line) {
                let m = concat3(
                    "Unknown profile `",
                    line,
                    "` in fallback config. Keep only profiles currently defined in config.toml.",
                );
                proof {
                    lemma_route_error_stays(all, expected, (k + 1) as nat);
                    assert(m@ =~= unknown_profile_message(line@));
                }
                return Err(m);
            }
            if contains_str(ordered.as_slice(), line) {
                let m = concat3(
                    "Duplicate profile `",
                    line,
                    "` in fallback config. Each profile must appear exactly once.",
                );
                proof {
                    lemma_route_error_stays(all, expected, (k + 1) as nat);
                    assert(m@ =~= duplicate_profile_message(line@));
                }
                return Err(m);
            }
            let owned = String::from_str(line);
            proof {
                lemma_views_push(ordered@, owned);
            }
            ordered.push(owned);
        }
        k = k + 1;
    }
    assert(all.take(k as int) =~= all);
    Ok(ordered)
}

/// `acc` followed by the ids of `xs` that `allowed` holds and that are not
/// already there, each once.
pub open spec fn add_new_ids(acc: Seq<Seq<char>>, xs: Seq<Seq<char>>, allowed: Seq<Seq<char>>) -> Seq<Seq<char>>
    decreases xs.len(),
{
    if xs.len() == 0 {
        acc
    } else {
        let a = add_new_ids(acc, xs.drop_last(), allowed);
        if allowed.contains(xs.last()) && !a.contains(xs.last()) {
            a.push(xs.last())
        } else {
            a
        }
    }
}

/// The order the route editor starts from: the route's profiles that are
/// still defined, in route order, then the other defined profiles.
pub open spec fn seed_order(profile_ids: Seq<Seq<char>>, route: Seq<Seq<char>>) -> Seq<Seq<char>> {
    add_new_ids(add_new_ids(Seq::empty(), route, profile_ids), profile_ids, profile_ids)
}

/// The comment lines at the top of the route editor.
pub open spec fn seed_header() -> Seq<char> {
    seed_header_line1() + "\n"@ + seed_header_line2() + "\n"@ + seed_header_line3() + "\n"@ + seed_header_line4()
}

/// The first comment line of the route editor.
pub open spec fn seed_header_line1() -> Seq<char> {
    "# Reorder fallback profiles, one id per line."@
}

/// The second comment line of the route editor.
pub open spec fn seed_header_line2() -> Seq<char> {
    "# Omitted profiles are allowed."@
}

/// The third comment line of the route editor.
pub open spec fn seed_header_line3() -> Seq<char> {
    "# Keep only profiles currently defined in config.toml, at most once each."@
}

/// The fourth comment line of the route editor.
pub open spec fn seed_header_line4() -> Seq<char> {
    "# Blank lines and lines starting with # are ignored."@
}

/// The ids of the summaries.
pub open spec fn summary_ids(profiles: Seq<RoutedProfileSummary>) -> Seq<Seq<char>> {
    profiles.map_values(|p: RoutedProfileSummary| p.id@)
}

/// Appends to `acc` the ids of `xs` that `allowed` holds and `acc` lacks.
fn append_new_ids(acc: &mut Vec<String>, xs: &Vec<String>, allowed: &Vec<String>)
    ensures
        views(final(acc)@) == add_new_ids(views(old(acc)@), views(xs@), views(allowed@)),
{
    let ghost start = views(acc@);
    let ghost xv = views(xs@);
    let mut i: usize = 0;
    while i < xs.len()
        invariant
            xv == views(xs@),
            i <= xs@.len(),
            views(acc@) == add_new_ids(start, xv.take(i as int), views(allowed@)),
        decreases xs@.len() - i,
    {
        assert(xv.take(i + 1).drop_last() =~= xv.take(i as int));
        assert(xv.take(i + 1).last() == xs@[i as int]@);
        let x = &xs[i];
        if contains_str(allowed.as_slice(), x.as_str()) && !contains_str(acc.as_slice(), x.as_str()) {
            proof {
                lemma_views_push(acc@, *x);
            }
            acc.push(x.clone());
        }
        i = i + 1;
    }
    assert(xv.take(i as int) =~= xv);
}

/// The text the route editor starts with: the comment lines, a blank line,
/// then one profile id per line.
pub fn fallback_route_editor_seed(profiles: &[RoutedProfileSummary], router_state: &ProfileRouterState) -> (r:
    String)
    ensures
        r@ == seed_header() + "\n\n"@ + join_seq(seed_order(summary_ids(profiles@), router_state.route_ids()), "\n"@)
            + "\n"@,
{
    let mut profile_ids: Vec<String> = Vec::new();
    let mut i: usize = 0;
    while i < profiles.len()
        invariant
            i <= profiles@.len(),
            views(profile_ids@) == summary_ids(profiles@).take(i as int),
        decreases profiles@.len() - i,
    {
        proof {
            lemma_views_push(profile_ids@, profiles@[i as int].id);
            assert(summary_ids(profiles@).take(i + 1) =~= summary_ids(profiles@).take(i as int).push(profiles@[i as int].id@));
        }
        profile_ids.push(profiles[i].id.clone());
        i = i + 1;
    }
    assert(summary_ids(profiles@).take(i as int) =~= summary_ids(profiles@));
    let mut route_ids: Vec<String> = Vec::new();
    let mut j: usize = 0;
    while j < router_state.routes.len()
        invariant
            j <= router_state.routes@.len(),
            views(route_ids@) == router_state.route_ids().take(j as int),
        decreases router_state.routes@.len() - j,
    {
        proof {
            lemma_views_push(route_ids@, router_state.routes@[j as int].profile_id);
            assert(router_state.route_ids().take(j + 1) =~= router_state.route_ids().take(j as int).push(router_state.routes@[j as int].profile_id@));
        }
        route_ids.push(router_state.routes[j].profile_id.clone());
        j = j + 1;
    }
    assert(router_state.route_ids().take(j as int) =~= router_state.route_ids());
    let mut ordered: Vec<String> = Vec::new();
    assert(views(ordered@) =~= Seq::<Seq<char>>::empty());
    append_new_ids(&mut ordered, &route_ids, &profile_ids);
    append_new_ids(&mut ordered, &profile_ids, &profile_ids);
    let mut seed = String::from_str("# Reorder fallback profiles, one id per line.");
    seed.append("\n");
    seed.append("# Omitted profiles are allowed.");
    seed.append("\n");
    seed.append("# Keep only profiles currently defined in config.toml, at most once each.");
    seed.append("\n");
    seed.append("# Blank lines and lines starting with # are ignored.");
    seed.append("\n\n");
    let body = join_strings(ordered.as_slice(), "\n");
    seed.append(body.as_str());
    seed.append("\n");
    proof {
        assert(seed@ =~= seed_header() + "\n\n"@ + join_seq(seed_order(summary_ids(profiles@), router_state.route_ids()), "\n"@) + "\n"@);
    }
    seed
}


/// The description of the root configuration.
pub open spec fn default_description_spec(p: DefaultProfileSummary) -> Seq<char> {
    join_seq(endpoint_parts(p.provider_label@, opt_view(p.base_url), opt_view(p.model)).push("root config"@), " · "@)
}

/// The description of a named profile.
pub open spec fn routed_description_spec(p: RoutedProfileSummary) -> Seq<char> {
    join_seq(endpoint_parts(p.provider_label@, opt_view(p.base_url), opt_view(p.model)), " · "@) + " · "@
        + route_position_text(p.route_position)
}

/// The item that switches to a profile: disabled when it is already active
/// or while a task runs, saying why.
pub open spec fn profile_item_view(
    name: Seq<char>,
    description: Seq<char>,
    is_current: bool,
    task_running: bool,
    target: RuntimeProfileTarget,
) -> SelectionItemView {
    SelectionItemView {
        name,
        description: Some(description),
        selected_description: Some("Reload the current session with this profile while preserving input continuity."@),
        is_current,
        is_disabled: is_current || task_running,
        disabled_reason: if is_current {
            Some("Already active."@)
        } else if task_running {
            Some("Wait for the current task to finish before switching profiles."@)
        } else {
            None
        },
        actions: seq![AppEvent::SwitchRuntimeProfile { target }],
        dismiss_on_select: true,
        search_value: Some(name + " "@ + description),
    }
}

/// The item that switches to a profile.
pub fn profile_selection_item(
    name: String,
    description: String,
    is_current: bool,
    task_running: bool,
    target: RuntimeProfileTarget,
) -> (r: SelectionItem)
    ensures
        r@ == profile_item_view(name@, description@, is_current, task_running, target),
{
    let (is_disabled, disabled_reason) = if is_current {
        (true, Some(String::from_str("Already active.")))
    } else if task_running {
        (true, Some(String::from_str("Wait for the current task to finish before switching profiles.")))
    } else {
        (false, None)
    };
    let search_value = concat3(name.as_str(), " ", description.as_str());
    SelectionItem {
        name,
        description: Some(description),
        selected_description: Some(String::from_str(
            "Reload the current session with this profile while preserving input continuity.",
        )),
        is_current,
        is_disabled,
        disabled_reason,
        actions: single_action(AppEvent::SwitchRuntimeProfile { target }),
        dismiss_on_select: true,
        search_value: Some(search_value),
    }
}

/// The item that opens the fallback route editor; it stays enabled while a task runs.
pub open spec fn fallback_item_view(route_len: nat, active: Option<Seq<char>>) -> SelectionItemView {
    SelectionItemView {
        name: "Fallback Config"@,
        description: Some(fallback_summary_spec(route_len, active)),
        selected_description: Some("Open your external editor and reorder all named profiles. Saving rewrites the fallback route file from scratch."@),
        is_current: false,
        is_disabled: false,
        disabled_reason: None,
        actions: seq![AppEvent::EditProfileFallbackConfig],
        dismiss_on_select: false,
        search_value: Some("fallback config route reorder edit"@),
    }
}

/// The disabled item shown when no named profile is defined.
pub open spec fn no_profiles_item_view() -> SelectionItemView {
    SelectionItemView {
        name: "No named profiles"@,
        description: Some("Add `[profiles.<name>]` entries in config.toml to route API traffic through alternate endpoints."@),
        selected_description: None,
        is_current: false,
        is_disabled: true,
        disabled_reason: None,
        actions: seq![],
        dismiss_on_select: false,
        search_value: None,
    }
}

/// The items of the profile panel: the root configuration, the fallback
/// route, then each named profile (or a note that there is none).
pub open spec fn profile_panel_items(
    active: Option<Seq<char>>,
    default_profile: DefaultProfileSummary,
    profiles: Seq<RoutedProfileSummary>,
    route_len: nat,
    route_active: Option<Seq<char>>,
    task_running: bool,
) -> Seq<SelectionItemView> {
    let head = seq![
        profile_item_view(
            "Default Config"@,
            default_description_spec(default_profile),
            active is None,
            task_running,
            RuntimeProfileTarget::Default,
        ),
        fallback_item_view(route_len, route_active),
    ];
    if profiles.len() == 0 {
        head.push(no_profiles_item_view())
    } else {
        head + profiles.map_values(|p: RoutedProfileSummary| profile_item_view(
            p.id@,
            routed_description_spec(p),
            active == Some(p.id@),
            task_running,
            RuntimeProfileTarget::Named(p.id),
        ))
    }
}

/// The profile panel.
pub fn profile_management_root_params(
    active_profile: Option<&str>,
    default_profile: &DefaultProfileSummary,
    profiles: &[RoutedProfileSummary],
    router_state: &ProfileRouterState,
    task_running: bool,
    initial_selected_idx: Option<usize>,
) -> (r: SelectionViewParams)
    ensures
        r@.view_id == Some("profile-management"@),
        r@.title == Some("Profiles"@),
        r@.subtitle == Some("Current runtime: "@ + (match active_profile {
            Some(a) => a@,
            None => "default"@,
        }) + " · "@ + decimal_seq(profiles@.len()) + " named profile(s)."@),
        r@.footer_hint == Some(PopupHint::Standard),
        r@.items == profile_panel_items(
            opt_str(active_profile),
            *default_profile,
            profiles@,
            router_state.routes@.len(),
            opt_view(router_state.active_profile_id),
            task_running,
        ),
        r@.is_searchable,
        r@.search_placeholder == Some("Type to search profiles"@),
        r@.initial_selected_idx == initial_selected_idx,
        r@.on_cancel is None,
{
    let ghost active = opt_str(active_profile);
    let mut items: Vec<SelectionItem> = Vec::new();
    let default_item = profile_selection_item(
        String::from_str("Default Config"),
        default_profile_description(default_profile),
        active_profile.is_none(),
        task_running,
        RuntimeProfileTarget::Default,
    );
    proof {
        lemma_item_views_push(items@, default_item);
    }
    items.push(default_item);
    let fallback = SelectionItem {
        name: String::from_str("Fallback Config"),
        description: Some(root_fallback_summary(router_state)),
        selected_description: Some(String::from_str(
            "Open your external editor and reorder all named profiles. Saving rewrites the fallback route file from scratch.",
        )),
        is_current: false,
        is_disabled: false,
        disabled_reason: None,
        actions: single_action(AppEvent::EditProfileFallbackConfig),
        dismiss_on_select: false,
        search_value: Some(String::from_str("fallback config route reorder edit")),
    };
    proof {
        lemma_item_views_push(items@, fallback);
    }
    items.push(fallback);
    let ghost head = item_views(items@);
    if profiles.len() == 0 {
        let mut none = SelectionItem::named(String::from_str("No named profiles"));
        none.description = Some(String::from_str(
            "Add `[profiles.<name>]` entries in config.toml to route API traffic through alternate endpoints.",
        ));
        none.is_disabled = true;
        proof {
            assert(none@.actions =~= Seq::<AppEvent>::empty());
            lemma_item_views_push(items@, none);
        }
        items.push(none);
    } else {
        let ghost f = |p: RoutedProfileSummary| profile_item_view(
            p.id@,
            routed_description_spec(p),
            active == Some(p.id@),
            task_running,
            RuntimeProfileTarget::Named(p.id),
        );
        let mut i: usize = 0;
        while i < profiles.len()
            invariant
                i <= profiles@.len(),
                active == opt_str(active_profile),
                f == (|p: RoutedProfileSummary| profile_item_view(
                    p.id@,
                    routed_description_spec(p),
                    active == Some(p.id@),
                    task_running,
                    RuntimeProfileTarget::Named(p.id),
                )),
                item_views(items@) == head + profiles@.take(i as int).map_values(f),
            decreases profiles@.len() - i,
        {
            let p = &profiles[i];
            let is_current = match active_profile {
                Some(a) => str_eq(a, p.id.as_str()),
                None => false,
            };
            let item = profile_selection_item(
                p.id.clone(),
                routed_profile_description(p),
                is_current,
                task_running,
                RuntimeProfileTarget::Named(p.id.clone()),
            );
            proof {
                lemma_item_views_push(items@, item);
                assert(item@ == f(profiles@[i as int]));
                assert(profiles@.take(i + 1).map_values(f) =~= profiles@.take(i as int).map_values(f).push(f(profiles@[i as int])));
            }
            items.push(item);
            i = i + 1;
        }
        proof {
            assert(profiles@.take(i as int) =~= profiles@);
        }
    }
    let mut subtitle = String::from_str("Current runtime: ");
    subtitle.append(profile_label(active_profile));
    subtitle.append(" · ");
    let count = decimal_string(profiles.len() as u128);
    subtitle.append(count.as_str());
    subtitle.append(" named profile(s).");
    SelectionViewParams {
        view_id: Some(String::from_str("profile-management")),
        title: Some(String::from_str("Profiles")),
        subtitle: Some(subtitle),
        footer_hint: Some(PopupHint::Standard),
        items,
        is_searchable: true,
        search_placeholder: Some(String::from_str("Type to search profiles")),
        initial_selected_idx,
        on_cancel: None,
    }
}


/// A model provider of the configuration: its display name and base URL.
#[derive(Debug, PartialEq, Eq)]
pub struct ModelProviderSummary {
    pub name: String,
    pub base_url: Option<String>,
}

/// The providers the configuration knows: the current one, and the others by id.
#[derive(Debug, PartialEq, Eq)]
pub struct ProviderCatalog {
    pub current_provider_id: String,
    pub current_provider: ModelProviderSummary,
    pub providers: Vec<(String, ModelProviderSummary)>,
}

/// The label and base URL shown for `provider_id`: the current provider's,
/// else the first listed provider of that id, else the id itself.
pub open spec fn provider_label_spec(c: ProviderCatalog, provider_id: Seq<char>) -> (Seq<char>, Option<Seq<char>>) {
    if provider_id == c.current_provider_id@ {
        (c.current_provider.name@, opt_view(c.current_provider.base_url))
    } else if exists|i: int| 0 <= i < c.providers@.len() && #[trigger] c.providers@[i].0@ == provider_id {
        let i = first_provider_index(c.providers@, provider_id);
        (c.providers@[i].1.name@, opt_view(c.providers@[i].1.base_url))
    } else {
        (provider_id, None)
    }
}

/// The first position of a provider with id `provider_id`.
pub open spec fn first_provider_index(providers: Seq<(String, ModelProviderSummary)>, provider_id: Seq<char>) -> int {
    choose|i: int| 0 <= i < providers.len() && #[trigger] providers[i].0@ == provider_id
        && forall|j: int| 0 <= j < i ==> providers[j].0@ != provider_id
}

impl ProviderCatalog {
    /// The label and base URL shown for `provider_id`.
    pub fn provider_label_and_base_url(&self, provider_id: &str) -> (r: (String, Option<String>))
        ensures
            (r.0@, opt_view(r.1)) == provider_label_spec(*self, provider_id@),
    {
        if str_eq(provider_id, self.current_provider_id.as_str()) {
            return (self.current_provider.name.clone(), copy_opt_string(&self.current_provider.base_url));
        }
        let mut i: usize = 0;
        while i < self.providers.len()
            invariant
                i <= self.providers@.len(),
                provider_id@ != self.current_provider_id@,
                forall|j: int| 0 <= j < i ==> self.providers@[j].0@ != provider_id@,
            decreases self.providers@.len() - i,
        {
            if str_eq(self.providers[i].0.as_str(), provider_id) {
                proof {
                    assert(exists|k: int| 0 <= k < self.providers@.len() && #[trigger] self.providers@[k].0@ == provider_id@
                        && forall|j: int| 0 <= j < k ==> self.providers@[j].0@ != provider_id@) by {
                        assert(0 <= i < self.providers@.len() && self.providers@[i as int].0@ == provider_id@
                            && forall|j: int| 0 <= j < i ==> self.providers@[j].0@ != provider_id@);
                    }
                    let c = first_provider_index(self.providers@, provider_id@);
                    if c < i {
                        assert(self.providers@[c].0@ != provider_id@);
                    } else if c > i {
                        assert(self.providers@[i as int].0@ != provider_id@);
                    }
                }
                let entry = &self.providers[i];
                return (entry.1.name.clone(), copy_opt_string(&entry.1.base_url));
            }
            i = i + 1;
        }
        (String::from_str(provider_id), None)
    }
}


/// A profile of the configuration's `profiles` table: its id, and the
/// model and model provider it names.
#[derive(Debug, PartialEq, Eq)]
pub struct ConfiguredProfile {
    pub id: String,
    pub model: Option<String>,
    pub model_provider: Option<String>,
}

/// The configuration's root table as the profile panel reads it: the
/// model and model provider it names, and its `profiles` table, if any.
#[derive(Debug, PartialEq, Eq)]
pub struct ProfileConfigTable {
    pub model: Option<String>,
    pub model_provider: Option<String>,
    pub profiles: Option<Vec<ConfiguredProfile>>,
}

/// The provider the root configuration uses: the one it names, else the
/// one the configuration runs with.
pub open spec fn root_provider_id(table: Option<ProfileConfigTable>, catalog: ProviderCatalog) -> Seq<char> {
    match table {
        Some(t) => match t.model_provider {
            Some(p) => p@,
            None => catalog.current_provider_id@,
        },
        None => catalog.current_provider_id@,
    }
}

/// The model the root configuration names.
pub open spec fn root_model(table: Option<ProfileConfigTable>) -> Option<Seq<char>> {
    match table {
        Some(t) => opt_view(t.model),
        None => None,
    }
}

/// The root configuration as the profile panel shows it, given its table
/// (`None` when the configuration is not a table) and the known providers.
pub fn default_profile_summary(table: Option<&ProfileConfigTable>, catalog: &ProviderCatalog) -> (r: DefaultProfileSummary)
    ensures
        ({
            let t = match table {
                Some(x) => Some(*x),
                None => None,
            };
            &&& (r.provider_label@, opt_view(r.base_url)) == provider_label_spec(*catalog, root_provider_id(t, *catalog))
            &&& opt_view(r.model) == root_model(t)
        }),
{
    let (provider, model) = match table {
        Some(t) => (
            match &t.model_provider {
                Some(p) => p.as_str(),
                None => catalog.current_provider_id.as_str(),
            },
            copy_opt_string(&t.model),
        ),
        None => (catalog.current_provider_id.as_str(), None),
    };
    let (provider_label, base_url) = catalog.provider_label_and_base_url(provider);
    DefaultProfileSummary { provider_label, model, base_url }
}

/// The position of the first profile with the id `id`, or -1.
pub open spec fn profile_pos(ps: Seq<ConfiguredProfile>, id: Seq<char>) -> int
    decreases ps.len(),
{
    if ps.len() == 0 {
        -1
    } else if ps[0].id@ == id {
        0
    } else {
        let p = profile_pos(ps.drop_first(), id);
        if p < 0 {
            -1
        } else {
            p + 1
        }
    }
}

/// No profile before `i` has the id `id`, and `ps[i]` has it.
proof fn lemma_profile_pos(ps: Seq<ConfiguredProfile>, id: Seq<char>, i: int)
    requires
        0 <= i < ps.len(),
        forall|j: int| 0 <= j < i ==> #[trigger] ps[j].id@ != id,
        ps[i].id@ == id,
    ensures
        profile_pos(ps, id) == i,
    decreases i,
{
    if i > 0 {
        let rest = ps.drop_first();
        assert forall|j: int| 0 <= j < i - 1 implies #[trigger] rest[j].id@ != id by {
            assert(rest[j] == ps[j + 1]);
        }
        assert(rest[i - 1] == ps[i]);
        lemma_profile_pos(rest, id, i - 1);
    }
}

/// The place of `id` on the fallback route, counted from one.
pub open spec fn route_position(ids: Seq<Seq<char>>, id: Seq<char>) -> Option<int>
    decreases ids.len(),
{
    if ids.len() == 0 {
        None
    } else if ids[0] == id {
        Some(1)
    } else {
        match route_position(ids.drop_first(), id) {
            Some(p) => Some(p + 1),
            None => None,
        }
    }
}

/// No id before `i` is `id`: its place is `i + 1` when `ids[i]` is it, and
/// there is none when `i` is the end.
proof fn lemma_route_position(ids: Seq<Seq<char>>, id: Seq<char>, i: int)
    requires
        0 <= i <= ids.len(),
        forall|j: int| 0 <= j < i ==> #[trigger] ids[j] != id,
        i < ids.len() ==> ids[i] == id,
    ensures
        route_position(ids, id) == (if i < ids.len() {
            Some(i + 1)
        } else {
            None
        }),
    decreases i,
{
    if i > 0 {
        let rest = ids.drop_first();
        assert forall|j: int| 0 <= j < i - 1 implies #[trigger] rest[j] != id by {
            assert(rest[j] == ids[j + 1]);
        }
        if i < ids.len() {
            assert(rest[i - 1] == ids[i]);
        }
        lemma_route_position(rest, id, i - 1);
    }
}

/// How the panel shows the profile `id` of `t`: the provider it uses (its
/// own, else the root's), that provider's label and base URL, its model
/// (its own, else the root's) and its place on the fallback route.
pub open spec fn profile_summary_ok(
    r: RoutedProfileSummary,
    t: ProfileConfigTable,
    ps: Seq<ConfiguredProfile>,
    catalog: ProviderCatalog,
    router: ProfileRouterState,
) -> bool {
    let p = ps[profile_pos(ps, r.id@)];
    let provider = match p.model_provider {
        Some(x) => x@,
        None => root_provider_id(Some(t), catalog),
    };
    &&& profile_pos(ps, r.id@) >= 0
    &&& (r.provider_label@, opt_view(r.base_url)) == provider_label_spec(catalog, provider)
    &&& opt_view(r.model) == (match p.model {
        Some(m) => Some(m@),
        None => opt_view(t.model),
    })
    &&& match r.route_position {
        Some(n) => route_position(router.route_ids(), r.id@) == Some(n as int),
        None => route_position(router.route_ids(), r.id@) is None,
    }
}

/// The ids of `ps`.
pub open spec fn profile_ids(ps: Seq<ConfiguredProfile>) -> Seq<Seq<char>> {
    ps.map_values(|p: ConfiguredProfile| p.id@)
}

/// The summary of the profile `id`.
fn profile_summary(
    id: String,
    t: &ProfileConfigTable,
    ps: &Vec<ConfiguredProfile>,
    catalog: &ProviderCatalog,
    router: &ProfileRouterState,
) -> (r: RoutedProfileSummary)
    requires
        profile_pos(ps@, id@) >= 0,
        t.profiles == Some(*ps),
    ensures
        r.id == id,
        profile_summary_ok(r, *t, ps@, *catalog, *router),
{
    let mut k: usize = 0;
    while k < ps.len()
        invariant
            k <= ps@.len(),
            profile_pos(ps@, id@) >= 0,
            forall|j: int| 0 <= j < k ==> #[trigger] ps@[j].id@ != id@,
        ensures
            k <= ps@.len(),
            k < ps@.len() ==> ps@[k as int].id@ == id@,
            k == ps@.len() ==> forall|j: int| 0 <= j < ps@.len() ==> #[trigger] ps@[j].id@ != id@,
        decreases ps@.len() - k,
    {
        if str_eq(ps[k].id.as_str(), id.as_str()) {
            break;
        }
        k = k + 1;
    }
    proof {
        if k == ps@.len() {
            lemma_profile_pos_absent(ps@, id@);
        }
        lemma_profile_pos(ps@, id@, k as int);
    }
    let p = &ps[k];
    let provider = match &p.model_provider {
        Some(x) => x.as_str(),
        None => match &t.model_provider {
            Some(x) => x.as_str(),
            None => catalog.current_provider_id.as_str(),
        },
    };
    let (provider_label, base_url) = catalog.provider_label_and_base_url(provider);
    let model = match &p.model {
        Some(m) => Some(m.clone()),
        None => copy_opt_string(&t.model),
    };
    let ghost ids = router.route_ids();
    let mut i: usize = 0;
    while i < router.routes.len()
        invariant
            i <= router.routes@.len(),
            ids == router.route_ids(),
            ids.len() == router.routes@.len(),
            forall|j: int| 0 <= j < i ==> #[trigger] ids[j] != id@,
        ensures
            i <= router.routes@.len(),
            i < router.routes@.len() ==> ids[i as int] == id@,
        decreases router.routes@.len() - i,
    {
        proof {
            assert(ids[i as int] == router.routes@[i as int].profile_id@);
        }
        if str_eq(router.routes[i].profile_id.as_str(), id.as_str()) {
            break;
        }
        i = i + 1;
    }
    proof {
        lemma_route_position(ids, id@, i as int);
    }
    let route_position = if i < router.routes.len() {
        Some(i + 1)
    } else {
        None
    };
    RoutedProfileSummary { id, provider_label, model, base_url, route_position }
}

/// The id of the profile at `i` has a first profile.
proof fn lemma_profile_pos_found(ps: Seq<ConfiguredProfile>, i: int)
    requires
        0 <= i < ps.len(),
    ensures
        profile_pos(ps, ps[i].id@) >= 0,
    decreases i,
{
    if i > 0 && ps[0].id@ != ps[i].id@ {
        let rest = ps.drop_first();
        assert(rest[i - 1] == ps[i]);
        lemma_profile_pos_found(rest, i - 1);
    }
}

/// No profile has the id `id`: there is no first one.
proof fn lemma_profile_pos_absent(ps: Seq<ConfiguredProfile>, id: Seq<char>)
    requires
        forall|j: int| 0 <= j < ps.len() ==> #[trigger] ps[j].id@ != id,
    ensures
        profile_pos(ps, id) == -1,
    decreases ps.len(),
{
    if ps.len() > 0 {
        let rest = ps.drop_first();
        assert forall|j: int| 0 <= j < rest.len() implies #[trigger] rest[j].id@ != id by {
            assert(rest[j] == ps[j + 1]);
        }
        lemma_profile_pos_absent(rest, id);
    }
}

/// The named profiles as the panel lists them, sorted by id: each with the
/// provider it uses, that provider's label and base URL, its model and its
/// place on the fallback route. None without a profiles table.
pub fn routed_profile_summaries(
    table: Option<&ProfileConfigTable>,
    catalog: &ProviderCatalog,
    router: &ProfileRouterState,
) -> (r: Vec<RoutedProfileSummary>)
    ensures
        match table {
            Some(t) => match t.profiles {
                Some(ps) => {
                    &&& sorted_strings(summary_ids(r@))
                    &&& summary_ids(r@).to_multiset() == profile_ids(ps@).to_multiset()
                    &&& forall|k: int| 0 <= k < r@.len() ==> profile_summary_ok(#[trigger] r@[k], *t, ps@, *catalog, *router)
                },
                None => r@.len() == 0,
            },
            None => r@.len() == 0,
        },
{
    broadcast use vstd::seq_lib::group_to_multiset_ensures;
    let t = match table {
        Some(t) => t,
        None => {
            return Vec::new();
        },
    };
    let ps = match &t.profiles {
        Some(ps) => ps,
        None => {
            return Vec::new();
        },
    };
    let mut ids: Vec<String> = Vec::new();
    let mut i: usize = 0;
    while i < ps.len()
        invariant
            i <= ps@.len(),
            sorted_strings(views(ids@)),
            views(ids@).to_multiset() == profile_ids(ps@).take(i as int).to_multiset(),
            forall|k: int| 0 <= k < ids@.len() ==> profile_pos(ps@, #[trigger] views(ids@)[k]) >= 0,
        decreases ps@.len() - i,
    {
        let id = ps[i].id.clone();
        let ghost before = views(ids@);
        let p = sorted_insert_position(&ids, &id);
        ids.insert(p, id);
        proof {
            assert(views(ids@) =~= before.insert(p as int, id@));
            lemma_insert_sorted(before, p as int, id@);
            broadcast use vstd::seq_lib::group_to_multiset_ensures;
            assert(profile_ids(ps@).take(i + 1) =~= profile_ids(ps@).take(i as int).push(id@));
            lemma_profile_pos_found(ps@, i as int);
            assert forall|k: int| 0 <= k < views(ids@).len() implies profile_pos(ps@, #[trigger] views(ids@)[k]) >= 0 by {
                if k < p {
                    assert(views(ids@)[k] == before[k]);
                } else if k > p {
                    assert(views(ids@)[k] == before[k - 1]);
                }
            }
        }
        i = i + 1;
    }
    proof {
        assert(profile_ids(ps@).take(i as int) =~= profile_ids(ps@));
    }
    let mut r: Vec<RoutedProfileSummary> = Vec::new();
    let mut rest = ids;
    let ghost all = views(rest@);
    let total = rest.len();
    let mut n: usize = 0;
    while rest.len() > 0
        invariant
            total == all.len(),
            n <= all.len(),
            views(rest@) == all.skip(n as int),
            summary_ids(r@) == all.take(n as int),
            forall|k: int| 0 <= k < all.len() ==> profile_pos(ps@, #[trigger] all[k]) >= 0,
            forall|k: int| 0 <= k < r@.len() ==> profile_summary_ok(#[trigger] r@[k], *t, ps@, *catalog, *router),
            t.profiles == Some(*ps),
        decreases rest@.len(),
    {
        let ghost r0 = rest@;
        let id = rest.remove(0);
        proof {
            assert(views(r0)[0] == r0[0]@);
            assert(views(r0).len() == r0.len());
            assert(n < all.len());
            assert(all.skip(n as int)[0] == all[n as int]);
            assert(id@ == all[n as int]);
            assert(views(rest@) =~= views(r0).drop_first());
            assert(views(rest@) =~= all.skip(n + 1));
        }
        let s = profile_summary(id, t, ps, catalog, router);
        let ghost before = r@;
        r.push(s);
        proof {
            assert(summary_ids(r@) =~= summary_ids(before).push(s.id@));
            assert(summary_ids(r@) =~= all.take(n + 1));
            assert forall|k: int| 0 <= k < r@.len() implies profile_summary_ok(#[trigger] r@[k], *t, ps@, *catalog, *router) by {
                if k < before.len() {
                    assert(r@[k] == before[k]);
                }
            }
        }
        n = n + 1;
    }
    proof {
        assert(all.take(n as int) =~= all);
    }
    r
}

/// What a failed turn does when the fallback route may retry it.
#[derive(Debug, PartialEq, Eq)]
pub enum ProfileFallbackRetryPlan {
    /// There is no turn to retry: the error is shown.
    ShowError { message: String },
    /// The turn is retried at once on `profile_id`, under this history line.
    RetryNow { generation: u64, profile_id: Option<String>, history_message: String },
    /// `notice` is shown, and the turn is retried on `profile_id` after
    /// `delay`, under this history line.
    RetryLater {
        generation: u64,
        profile_id: Option<String>,
        history_message: String,
        notice: String,
        delay: WorkflowDuration,
    },
}

/// The label shown for a profile, as a sequence.
pub open spec fn profile_label_spec(profile_id: Option<Seq<char>>) -> Seq<char> {
    match profile_id {
        Some(p) => p,
        None => "default"@,
    }
}

/// The attempt a retry makes: one more than those made, at most `u32::MAX`.
pub open spec fn next_attempt(attempts: u32) -> u32 {
    if attempts == u32::MAX {
        u32::MAX
    } else {
        (attempts + 1) as u32
    }
}

/// What a turn that failed with `error_message` does: without a turn to
/// retry, the error shows; else the turn is retried on the profile the
/// fallback route picks, at once for the first attempts and otherwise
/// after the fallback delay, which a notice announces.
pub fn profile_fallback_retry_plan(
    action: ProfileFallbackAction,
    router_state: &ProfileRouterState,
    active_profile_id: Option<&str>,
    has_retryable_user_turn: bool,
    generation: u64,
    attempts_made: u32,
    same_profile_retry_consumed: bool,
    error_message: String,
) -> (r: ProfileFallbackRetryPlan)
    ensures
        ({
            let target = retry_target_spec(action, router_state.route_ids(), opt_str(active_profile_id), same_profile_retry_consumed);
            let label = profile_label_spec(target);
            let history = "Retrying the last turn with profile `"@ + label + "`."@;
            let secs = profile_retry_delay_secs(next_attempt(attempts_made));
            if !has_retryable_user_turn {
                r matches ProfileFallbackRetryPlan::ShowError { message } && message@ == error_message@
            } else if secs == 0 {
                r matches ProfileFallbackRetryPlan::RetryNow { generation: g, profile_id, history_message }
                    && g == generation && opt_view(profile_id) == target && history_message@ == history
            } else {
                r matches ProfileFallbackRetryPlan::RetryLater { generation: g, profile_id, history_message, notice, delay }
                    && g == generation && opt_view(profile_id) == target && history_message@ == history
                    && notice@ == error_message@ + " Retrying with profile `"@ + label + "` in "@ + decimal_seq(secs) + "s."@
                    && delay.secs == secs && delay.nanos == 0
            }
        }),
{
    if !has_retryable_user_turn {
        return ProfileFallbackRetryPlan::ShowError { message: error_message };
    }
    let attempt = attempts_made.saturating_add(1);
    let profile_id = profile_fallback_retry_target(action, router_state, active_profile_id, same_profile_retry_consumed);
    let label = String::from_str(profile_label(match &profile_id {
        Some(p) => Some(p.as_str()),
        None => None,
    }));
    let history_message = concat3("Retrying the last turn with profile `", label.as_str(), "`.");
    let delay = profile_fallback_retry_delay(attempt);
    if delay.secs == 0 {
        return ProfileFallbackRetryPlan::RetryNow { generation, profile_id, history_message };
    }
    let mut notice = concat3(error_message.as_str(), " Retrying with profile `", label.as_str());
    notice.append("` in ");
    notice.append(decimal_string(delay.secs as u128).as_str());
    notice.append("s.");
    ProfileFallbackRetryPlan::RetryLater { generation, profile_id, history_message, notice, delay }
}

/// What a scheduled fallback retry does when its time comes.
#[derive(Debug, Clone, Copy, PartialEq, Eq, Structural)]
pub enum ProfileFallbackRetryStep {
    /// The turn is gone or a newer failure took over: nothing.
    Skip,
    /// The runtime switches to the retry's profile, then the turn is sent.
    SwitchThenSubmit,
    /// The turn is sent again on the active profile.
    Submit,
}

/// What a scheduled fallback retry of `generation` on `profile_id` does,
/// given the turn to retry, the current retry generation and the active
/// profile.
pub fn profile_fallback_retry_step(
    has_retryable_user_turn: bool,
    current_generation: u64,
    generation: u64,
    active_profile_id: Option<&str>,
    profile_id: Option<&str>,
) -> (r: ProfileFallbackRetryStep)
    ensures
        r == (if !has_retryable_user_turn || current_generation != generation {
            ProfileFallbackRetryStep::Skip
        } else if opt_str(active_profile_id) != opt_str(profile_id) {
            ProfileFallbackRetryStep::SwitchThenSubmit
        } else {
            ProfileFallbackRetryStep::Submit
        }),
{
    if !has_retryable_user_turn || current_generation != generation {
        return ProfileFallbackRetryStep::Skip;
    }
    let same = match (active_profile_id, profile_id) {
        (Some(a), Some(p)) => str_eq(a, p),
        (None, None) => true,
        _ => false,
    };
    if same {
        ProfileFallbackRetryStep::Submit
    } else {
        ProfileFallbackRetryStep::SwitchThenSubmit
    }
}

/// The error shown when switching to the fallback profile failed.
pub fn fallback_switch_error(profile_id: Option<&str>, error: &str) -> (r: String)
    ensures
        r@ == "Failed to switch to fallback profile `"@ + opt_label(profile_id) + "`: "@ + error@,
{
    let mut m = concat3("Failed to switch to fallback profile `", profile_label(profile_id), "`: ");
    m.append(error);
    m
}

/// The label shown for a profile.
pub open spec fn opt_label(profile_id: Option<&str>) -> Seq<char> {
    profile_label_spec(opt_str(profile_id))
}

/// The fallback delay never exceeds thirty seconds and never shrinks as the
/// attempts go up.
pub proof fn lemma_profile_retry_delay_capped_and_monotone(a: u32, b: u32)
    requires
        a <= b,
    ensures
        profile_retry_delay_secs(a) <= 30,
        profile_retry_delay_secs(a) <= profile_retry_delay_secs(b),
{
    vstd::arithmetic::power2::lemma2_to64();
    if a > 1 {
        let ea: nat = if a - 2 > 5 { 5 } else { (a - 2) as nat };
        let eb: nat = if b - 2 > 5 { 5 } else { (b - 2) as nat };
        if ea < eb {
            vstd::arithmetic::power2::lemma_pow2_strictly_increases(ea, eb);
        }
    }
}


impl Default for ProfileRouterState {
    /// An empty route of the current version.
    fn default() -> (r: Self)
        ensures
            r.version == 1,
            r.active_profile_id is None,
            r.routes@.len() == 0,
    {
        ProfileRouterState::new()
    }
}


/// The route the lines give when the route so far is `acc`.
pub open spec fn parse_route_from(
    acc: Result<Seq<Seq<char>>, Seq<char>>,
    lines: Seq<Seq<char>>,
    expected: Seq<Seq<char>>,
) -> Result<Seq<Seq<char>>, Seq<char>>
    decreases lines.len(),
{
    if lines.len() == 0 {
        acc
    } else {
        match parse_route_from(acc, lines.drop_last(), expected) {
            Err(e) => Err(e),
            Ok(a) => route_line_step(a, lines.last(), expected),
        }
    }
}

/// Parsing from an empty route is parsing.
proof fn lemma_parse_from_empty(lines: Seq<Seq<char>>, expected: Seq<Seq<char>>)
    ensures
        parse_route_lines(lines, expected) == parse_route_from(Ok(Seq::empty()), lines, expected),
    decreases lines.len(),
{
    if lines.len() > 0 {
        lemma_parse_from_empty(lines.drop_last(), expected);
    }
}

/// Parsing two runs of lines is parsing the second from where the first left off.
proof fn lemma_parse_concat(
    acc: Result<Seq<Seq<char>>, Seq<char>>,
    l1: Seq<Seq<char>>,
    l2: Seq<Seq<char>>,
    expected: Seq<Seq<char>>,
)
    ensures
        parse_route_from(acc, l1 + l2, expected) == parse_route_from(parse_route_from(acc, l1, expected), l2, expected),
    decreases l2.len(),
{
    if l2.len() == 0 {
        assert(l1 + l2 =~= l1);
    } else {
        lemma_parse_concat(acc, l1, l2.drop_last(), expected);
        assert((l1 + l2).drop_last() =~= l1 + l2.drop_last());
        assert((l1 + l2).last() == l2.last());
    }
}

/// Lines that are blank or comments change nothing.
proof fn lemma_parse_skipped(a: Seq<Seq<char>>, lines: Seq<Seq<char>>, expected: Seq<Seq<char>>)
    requires
        forall|i: int| 0 <= i < lines.len() ==> {
            let t = trim_seq(#[trigger] lines[i]);
            t.len() == 0 || t[0] == '#'
        },
    ensures
        parse_route_from(Ok(a), lines, expected) == Ok::<Seq<Seq<char>>, Seq<char>>(a),
    decreases lines.len(),
{
    if lines.len() > 0 {
        lemma_parse_skipped(a, lines.drop_last(), expected);
        let t = trim_seq(lines[lines.len() - 1]);
        assert(t.len() == 0 || t[0] == '#');
    }
}

/// A profile id that the route editor gives back as written: not empty, no
/// line feed, no surrounding white space, not a comment.
pub open spec fn editor_safe_id(id: Seq<char>) -> bool {
    &&& id.len() > 0
    &&& !id.contains('\n')
    &&& !is_white_space(id[0])
    &&& !is_white_space(id.last())
    &&& id[0] != '#'
}

/// Distinct defined ids, one per line, parse to themselves.
proof fn lemma_parse_ids(ids: Seq<Seq<char>>, expected: Seq<Seq<char>>)
    requires
        ids.no_duplicates(),
        forall|i: int| 0 <= i < ids.len() ==> editor_safe_id(#[trigger] ids[i]) && expected.contains(ids[i]),
    ensures
        parse_route_from(Ok(Seq::empty()), ids, expected) == Ok::<Seq<Seq<char>>, Seq<char>>(ids),
    decreases ids.len(),
{
    if ids.len() > 0 {
        let d = ids.drop_last();
        assert(d.no_duplicates());
        assert forall|i: int| 0 <= i < d.len() implies editor_safe_id(#[trigger] d[i]) && expected.contains(d[i]) by {
            assert(d[i] == ids[i]);
        }
        lemma_parse_ids(d, expected);
        let x = ids.last();
        assert(editor_safe_id(ids[ids.len() - 1]));
        lemma_trim_unchanged(x);
        assert(!d.contains(x)) by {
            if d.contains(x) {
                let j = choose|j: int| 0 <= j < d.len() && d[j] == x;
                assert(ids[j] == ids[ids.len() - 1]);
            }
        }
        assert(expected.contains(x));
        assert(trim_seq(x) == x);
        assert(x[0] != '#');
        assert(ids.drop_last() == d);
        assert(route_line_step(d, x, expected) == Ok::<Seq<Seq<char>>, Seq<char>>(d.push(x)));
        assert(d.push(x) =~= ids);
    } else {
        assert(ids =~= Seq::<Seq<char>>::empty());
    }
}

/// What `add_new_ids` adds is allowed and new.
proof fn lemma_add_new_ids(acc: Seq<Seq<char>>, xs: Seq<Seq<char>>, allowed: Seq<Seq<char>>)
    requires
        acc.no_duplicates(),
        forall|i: int| 0 <= i < acc.len() ==> allowed.contains(#[trigger] acc[i]),
    ensures
        add_new_ids(acc, xs, allowed).no_duplicates(),
        forall|i: int| 0 <= i < add_new_ids(acc, xs, allowed).len() ==> allowed.contains(#[trigger] add_new_ids(acc, xs, allowed)[i]),
    decreases xs.len(),
{
    if xs.len() > 0 {
        lemma_add_new_ids(acc, xs.drop_last(), allowed);
        let a = add_new_ids(acc, xs.drop_last(), allowed);
        let x = xs.last();
        if allowed.contains(x) && !a.contains(x) {
            let r = a.push(x);
            assert forall|i: int, j: int| 0 <= i < j < r.len() implies r[i] != r[j] by {
                if j == a.len() {
                    assert(a.contains(a[i]));
                }
            }
            assert forall|i: int| 0 <= i < r.len() implies allowed.contains(#[trigger] r[i]) by {
                if i < a.len() {
                    assert(r[i] == a[i]);
                }
            }
        }
    }
}

/// The comment lines of the route editor.
pub open spec fn seed_header_lines() -> Seq<Seq<char>> {
    seq![seed_header_line1(), seed_header_line2(), seed_header_line3(), seed_header_line4()]
}

/// The comment lines hold no line feed, start with `#`, and are their own trim.
proof fn lemma_seed_header_lines()
    ensures
        join_seq(seed_header_lines(), "\n"@) == seed_header(),
        forall|i: int| 0 <= i < seed_header_lines().len() ==> !(#[trigger] seed_header_lines()[i]).contains('\n'),
        forall|i: int| 0 <= i < seed_header_lines().len() ==> {
            let t = trim_seq(#[trigger] seed_header_lines()[i]);
            t.len() > 0 && t[0] == '#'
        },
{
    reveal_strlit("# Reorder fallback profiles, one id per line.");
    reveal_strlit("# Omitted profiles are allowed.");
    reveal_strlit("# Keep only profiles currently defined in config.toml, at most once each.");
    reveal_strlit("# Blank lines and lines starting with # are ignored.");
    let hs = seed_header_lines();
    let (h1, h2, h3, h4) = (seed_header_line1(), seed_header_line2(), seed_header_line3(), seed_header_line4());
    assert(!h1.contains('\n'));
    assert(!h2.contains('\n'));
    assert(!h3.contains('\n'));
    assert(!h4.contains('\n'));
    lemma_trim_unchanged(h1);
    lemma_trim_unchanged(h2);
    lemma_trim_unchanged(h3);
    lemma_trim_unchanged(h4);
    assert(hs.drop_last().drop_last().drop_last() =~= seq![h1]);
    assert(hs.drop_last().drop_last() =~= seq![h1, h2]);
    assert(hs.drop_last() =~= seq![h1, h2, h3]);
    assert(join_seq(seq![h1], "\n"@) == h1);
    assert(join_seq(seq![h1, h2], "\n"@) == h1 + "\n"@ + h2);
    assert(join_seq(seq![h1, h2, h3], "\n"@) == h1 + "\n"@ + h2 + "\n"@ + h3);
    assert(join_seq(hs, "\n"@) =~= seed_header());
}

/// The lines of the seed text: the comment lines, a blank line, then the
/// ids (or a second blank line when there are none).
proof fn lemma_seed_lines(order: Seq<Seq<char>>)
    requires
        forall|i: int| 0 <= i < order.len() ==> !(#[trigger] order[i]).contains('\n'),
    ensures
        text_lines(seed_header() + "\n\n"@ + join_seq(order, "\n"@) + "\n"@) == seed_header_lines().push(Seq::<char>::empty())
            + (if order.len() > 0 {
            order
        } else {
            seq![Seq::<char>::empty()]
        }),
{
    reveal_strlit("\n\n");
    reveal_strlit("\n");
    lemma_seed_header_lines();
    lemma_split_join(seed_header_lines());
    let body = join_seq(order, "\n"@);
    let e = Seq::<char>::empty();
    let text = seed_header() + "\n\n"@ + body + "\n"@;
    let tail = e + seq!['\n'] + (body + seq!['\n'] + e);
    assert(text =~= seed_header() + seq!['\n'] + tail);
    lemma_split_concat(seed_header(), tail);
    lemma_split_concat(e, body + seq!['\n'] + e);
    lemma_split_concat(body, e);
    assert(split_pieces(e) =~= seq![e]);
    if order.len() > 0 {
        lemma_split_join(order);
    } else {
        assert(body =~= e);
    }
}

/// The route editor gives back the order it was seeded with: the seed text,
/// read as the editor's contents, parses to the seed order, as long as every
/// profile id reads back as written (see `editor_safe_id`).
pub proof fn lemma_seed_parses_back(profiles: Seq<RoutedProfileSummary>, router_state: ProfileRouterState)
    requires
        forall|i: int| 0 <= i < profiles.len() ==> editor_safe_id(#[trigger] profiles[i].id@),
    ensures
        parse_route_lines(
            text_lines(seed_header() + "\n\n"@ + join_seq(seed_order(summary_ids(profiles), router_state.route_ids()), "\n"@)
                + "\n"@),
            summary_ids(profiles),
        ) == Ok::<Seq<Seq<char>>, Seq<char>>(seed_order(summary_ids(profiles), router_state.route_ids())),
{
    let ids = summary_ids(profiles);
    let order = seed_order(ids, router_state.route_ids());
    assert(Seq::<Seq<char>>::empty().no_duplicates());
    lemma_add_new_ids(Seq::empty(), router_state.route_ids(), ids);
    let first = add_new_ids(Seq::empty(), router_state.route_ids(), ids);
    lemma_add_new_ids(first, ids, ids);
    assert forall|i: int| 0 <= i < order.len() implies editor_safe_id(#[trigger] order[i]) && ids.contains(order[i]) by {
        assert(ids.contains(order[i]));
        let j = choose|j: int| 0 <= j < ids.len() && ids[j] == order[i];
        assert(ids[j] == profiles[j].id@);
    }
    lemma_seed_lines(order);
    lemma_seed_header_lines();
    let e = Seq::<char>::empty();
    let skipped = seed_header_lines().push(e);
    assert(trim_seq(e) =~= e);
    assert forall|i: int| 0 <= i < skipped.len() implies {
        let t = trim_seq(#[trigger] skipped[i]);
        t.len() == 0 || t[0] == '#'
    } by {
        if i < 4 {
            assert(skipped[i] == seed_header_lines()[i]);
        }
    }
    let lines = skipped + (if order.len() > 0 { order } else { seq![e] });
    lemma_parse_from_empty(lines, ids);
    lemma_parse_concat(Ok(Seq::empty()), skipped, if order.len() > 0 { order } else { seq![e] }, ids);
    lemma_parse_skipped(Seq::empty(), skipped, ids);
    if order.len() > 0 {
        lemma_parse_ids(order, ids);
    } else {
        lemma_parse_skipped(Seq::empty(), seq![e], ids);
        assert(order =~= Seq::<Seq<char>>::empty());
    }
}
} // verus!
