//! The order in which one search does its work, as a state machine: the caller
//! performs each action (shopping, choosing candidates) and hands back what came of
//! it. The honest A→B fare is shopped first, on a paid slot held for it, unless a
//! fresh indexed fare already answers it; ticketed destinations beyond B are only
//! probed once the honest fare is known, and the fast pass probes none when a
//! hidden-city fare is already in hand.
use vstd::prelude::*;

verus! {

/// Where a search stands.
pub enum SearchPhase {
    /// Nothing shopped yet.
    Start,
    /// The honest A→B shop is under way.
    Honest,
    /// Separate-ticket journeys are being shopped.
    SelfTransfers,
    /// Candidates beyond B are being chosen.
    Choosing,
    /// The chosen candidates are being shopped.
    Probing,
    /// Nothing is left to do.
    Done,
}

/// What a search knows between steps.
pub struct SearchState {
    pub phase: SearchPhase,
    /// The fast pass (else the deep pass).
    pub fast: bool,
    /// A fresh live indexed fare answers A→B, so it is not shopped again.
    pub reuse_honest: bool,
    /// A paid supplier is configured.
    pub duffel: bool,
    /// Some supplier (paid or mock) can shop.
    pub can_shop: bool,
    /// The search is a return trip.
    pub round_trip: bool,
    /// Candidates the earlier pass already probed.
    pub already_probed: usize,
    /// Candidates a fast pass probes.
    pub fast_candidates: usize,
    /// Candidates both passes probe together.
    pub hidden_candidates: usize,
    /// Whether the honest shop gave a priced honest fare.
    pub honest_found: bool,
    /// Whether the mock supplier answered the honest shop.
    pub mock_covered: bool,
    /// Hidden-city fares cheaper than the honest one, found so far.
    pub hidden_found: usize,
    /// Candidates chosen to probe.
    pub chosen: usize,
}

/// What came of the last action.
pub enum SearchEvent {
    /// Begin.
    Begin,
    /// The honest shop ended: whether an honest fare was priced, whether the mock
    /// supplier answered, and how many cheaper hidden-city fares it showed.
    HonestShopped { honest_found: bool, mock_covered: bool, hidden_found: usize },
    /// The separate-ticket shop ended.
    SelfTransfersShopped,
    /// Candidates were chosen.
    CandidatesChosen { chosen: usize },
    /// The chosen candidates were shopped; how many more cheaper hidden-city fares.
    Probed { hidden_found: usize },
}

/// What the caller does next.
pub enum SearchAction {
    /// Hold one paid slot for A→B, then shop A→B with every supplier.
    HoldDirectAndShopHonest,
    /// Shop A→B with the mock supplier only (an indexed fare answers it).
    ShopHonestMockOnly,
    /// Release the held slot, then shop separate-ticket journeys.
    ReleaseHoldAndShopSelfTransfers,
    /// Release the held slot (if any) and choose up to `budget` candidates beyond B.
    ReleaseHoldAndChoose { budget: usize },
    /// Shop the chosen candidates.
    ProbeCandidates,
    /// Release the held slot (if any) and answer with what was found.
    Finish,
    /// The event does not fit the phase: nothing to do.
    Ignore,
}

/// The candidate budget of a pass (see `hidden_probe_budget`).
pub open spec fn probe_budget(s: SearchState) -> usize {
    if s.fast { s.fast_candidates } else if s.hidden_candidates >= s.already_probed {
        (s.hidden_candidates - s.already_probed) as usize } else { 0 }
}

/// Whether candidates beyond B are chosen: a supplier can shop, an honest fare is
/// known, and the fast pass has no cheaper hidden-city fare in hand yet.
pub open spec fn may_expand(s: SearchState) -> bool {
    s.can_shop && s.honest_found && !(s.fast && s.hidden_found > 0)
}

/// The step after the honest shop or the separate-ticket shop.
pub open spec fn after_shops(s: SearchState) -> (SearchState, SearchAction) {
    if may_expand(s) {
        (SearchState { phase: SearchPhase::Choosing, ..s }, SearchAction::ReleaseHoldAndChoose { budget: probe_budget(s) })
    } else {
        (SearchState { phase: SearchPhase::Done, ..s }, SearchAction::Finish)
    }
}

/// The next state and action of a search.
pub open spec fn search_next_spec(s: SearchState, e: SearchEvent) -> (SearchState, SearchAction) {
    match (s.phase, e) {
        (SearchPhase::Start, SearchEvent::Begin) => {
            if s.reuse_honest {
                (SearchState { phase: SearchPhase::Honest, ..s }, SearchAction::ShopHonestMockOnly)
            } else {
                (SearchState { phase: SearchPhase::Honest, ..s }, SearchAction::HoldDirectAndShopHonest)
            }
        },
        (SearchPhase::Honest, SearchEvent::HonestShopped { honest_found, mock_covered, hidden_found }) => {
            let t = SearchState { honest_found, mock_covered, hidden_found, ..s };
            if t.duffel && !t.mock_covered && !t.round_trip {
                (SearchState { phase: SearchPhase::SelfTransfers, ..t }, SearchAction::ReleaseHoldAndShopSelfTransfers)
            } else {
                after_shops(t)
            }
        },
        (SearchPhase::SelfTransfers, SearchEvent::SelfTransfersShopped) => after_shops(s),
        (SearchPhase::Choosing, SearchEvent::CandidatesChosen { chosen }) => {
            if chosen > 0 {
                (SearchState { phase: SearchPhase::Probing, chosen, ..s }, SearchAction::ProbeCandidates)
            } else {
                (SearchState { phase: SearchPhase::Done, chosen, ..s }, SearchAction::Finish)
            }
        },
        (SearchPhase::Probing, SearchEvent::Probed { hidden_found }) => {
            let total = if s.hidden_found + hidden_found <= usize::MAX { (s.hidden_found + hidden_found) as usize } else { usize::MAX };
            (SearchState { phase: SearchPhase::Done, hidden_found: total, ..s }, SearchAction::Finish)
        },
        _ => (s, SearchAction::Ignore),
    }
}

fn after_shops_exec(s: SearchState) -> (r: (SearchState, SearchAction))
    ensures
        r == after_shops(s),
{
    if s.can_shop && s.honest_found && !(s.fast && s.hidden_found > 0) {
        let budget = if s.fast { s.fast_candidates } else { s.hidden_candidates.saturating_sub(s.already_probed) };
        (SearchState { phase: SearchPhase::Choosing, ..s }, SearchAction::ReleaseHoldAndChoose { budget })
    } else {
        (SearchState { phase: SearchPhase::Done, ..s }, SearchAction::Finish)
    }
}

/// One step of a search; see [`search_next_spec`].
pub fn search_step(state: &SearchState, event: SearchEvent) -> (r: (SearchState, SearchAction))
    ensures
        r == search_next_spec(*state, event),
{
    let s = SearchState { phase: copy_phase(&state.phase), ..*state };
    match (&state.phase, event) {
        (SearchPhase::Start, SearchEvent::Begin) => {
            if s.reuse_honest {
                (SearchState { phase: SearchPhase::Honest, ..s }, SearchAction::ShopHonestMockOnly)
            } else {
                (SearchState { phase: SearchPhase::Honest, ..s }, SearchAction::HoldDirectAndShopHonest)
            }
        },
        (SearchPhase::Honest, SearchEvent::HonestShopped { honest_found, mock_covered, hidden_found }) => {
            let t = SearchState { honest_found, mock_covered, hidden_found, ..s };
            if t.duffel && !t.mock_covered && !t.round_trip {
                (SearchState { phase: SearchPhase::SelfTransfers, ..t }, SearchAction::ReleaseHoldAndShopSelfTransfers)
            } else {
                after_shops_exec(t)
            }
        },
        (SearchPhase::SelfTransfers, SearchEvent::SelfTransfersShopped) => after_shops_exec(s),
        (SearchPhase::Choosing, SearchEvent::CandidatesChosen { chosen }) => {
            if chosen > 0 {
                (SearchState { phase: SearchPhase::Probing, chosen, ..s }, SearchAction::ProbeCandidates)
            } else {
                (SearchState { phase: SearchPhase::Done, chosen, ..s }, SearchAction::Finish)
            }
        },
        (SearchPhase::Probing, SearchEvent::Probed { hidden_found }) => {
            let total = s.hidden_found.saturating_add(hidden_found);
            (SearchState { phase: SearchPhase::Done, hidden_found: total, ..s }, SearchAction::Finish)
        },
        _ => (s, SearchAction::Ignore),
    }
}

fn copy_phase(p: &SearchPhase) -> (r: SearchPhase)
    ensures
        r == *p,
{
    match p {
        SearchPhase::Start => SearchPhase::Start,
        SearchPhase::Honest => SearchPhase::Honest,
        SearchPhase::SelfTransfers => SearchPhase::SelfTransfers,
        SearchPhase::Choosing => SearchPhase::Choosing,
        SearchPhase::Probing => SearchPhase::Probing,
        SearchPhase::Done => SearchPhase::Done,
    }
}

/// A search as it starts.
pub fn start_search(fast: bool, reuse_honest: bool, duffel: bool, can_shop: bool, round_trip: bool,
    already_probed: usize, fast_candidates: usize, hidden_candidates: usize) -> (r: SearchState)
    ensures
        r == (SearchState { phase: SearchPhase::Start, fast, reuse_honest, duffel, can_shop, round_trip,
            already_probed, fast_candidates, hidden_candidates, honest_found: false, mock_covered: false,
            hidden_found: 0, chosen: 0 }),
{
    SearchState { phase: SearchPhase::Start, fast, reuse_honest, duffel, can_shop, round_trip,
        already_probed, fast_candidates, hidden_candidates, honest_found: false, mock_covered: false,
        hidden_found: 0, chosen: 0 }
}

/// The honest A→B fare comes first: a search's first step shops it (holding a paid
/// slot for it unless an indexed fare answers it), and no step chooses or probes
/// candidates beyond B before the honest shop has ended.
pub proof fn law_honest_shop_first(s: SearchState, e: SearchEvent)
    ensures
        s.phase == SearchPhase::Start && e == SearchEvent::Begin ==> search_next_spec(s, e).1 == (if s.reuse_honest {
            SearchAction::ShopHonestMockOnly } else { SearchAction::HoldDirectAndShopHonest }),
        (s.phase == SearchPhase::Start || s.phase == SearchPhase::Honest) && !(e is HonestShopped) ==>
            !(search_next_spec(s, e).1 is ReleaseHoldAndChoose) && !(search_next_spec(s, e).1 is ProbeCandidates),
        s.phase == SearchPhase::Start ==> !(search_next_spec(s, e).1 is ReleaseHoldAndChoose)
            && !(search_next_spec(s, e).1 is ProbeCandidates),
{
}

/// Once a fast pass holds a cheaper hidden-city fare, it chooses no candidates
/// beyond B; and no pass chooses candidates without an honest fare to beat.
pub proof fn law_no_expansion_after_hidden(s: SearchState, e: SearchEvent)
    ensures
        search_next_spec(s, e).1 is ReleaseHoldAndChoose ==> search_next_spec(s, e).0.honest_found
            && !(search_next_spec(s, e).0.fast && search_next_spec(s, e).0.hidden_found > 0),
{
}

} // verus!
