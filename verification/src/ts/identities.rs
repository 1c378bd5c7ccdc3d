//! The search for identities that have a member group and belong to nobody known.

use vstd::prelude::*;

use crate::config::TSConfig;
use crate::error::{Error, SettingKey};
use crate::text::{decimal, decimal_text};

verus! {

/// Seconds that the wait grows by from one try to the next.
pub const RETRY_TIME_SECS: u64 = 60;

/// Tries until the search is given up.
pub const MAX_TRIES: u64 = 10;

/// What has happened in a search.
#[derive(Debug)]
pub enum SearchEvent<E> {
    /// A try can begin.
    Ready,
    /// The setting with the member groups was read.
    GroupsRead(Result<Option<Vec<usize>>, E>),
    /// The server was searched.
    Searched(Result<(), E>),
}

/// Why a search failed.
#[derive(Debug)]
pub enum SearchError<E> {
    /// The search cannot be done.
    Search(Error),
    /// Something that it rests on failed.
    Outside(E),
}

/// What a search does next.
#[derive(Debug)]
pub enum SearchAction<E> {
    /// Read the setting with the member groups.
    ReadGroups,
    /// Search the server for clients of these groups.
    Search(Vec<usize>),
    /// Wait this many seconds, since the try failed with this error.
    Wait(u64, E),
    Finish(Result<(), SearchError<E>>),
}

/// What the search does on `event` in try number `attempt`, and the number of the try after that.
/// Failing to read the groups ends it at once, and so does having none; a server that cannot be
/// searched is tried again after a while, up to the last try.
pub open spec fn search_step<E>(attempt: u64, event: SearchEvent<E>) -> (u64, SearchAction<E>) {
    match event {
        SearchEvent::Ready => (attempt, SearchAction::ReadGroups),
        SearchEvent::GroupsRead(Err(e)) => (
            attempt,
            SearchAction::Finish(Err(SearchError::Outside(e))),
        ),
        SearchEvent::GroupsRead(Ok(None)) => (
            attempt,
            SearchAction::Finish(
                Err(SearchError::Search(Error::MissingKey(SettingKey::MemberGroup))),
            ),
        ),
        SearchEvent::GroupsRead(Ok(Some(groups))) => (attempt, SearchAction::Search(groups)),
        SearchEvent::Searched(Ok(_)) => (attempt, SearchAction::Finish(Ok(()))),
        SearchEvent::Searched(Err(e)) => if attempt >= MAX_TRIES {
            (attempt, SearchAction::Finish(Err(SearchError::Outside(e))))
        } else {
            ((attempt + 1) as u64, SearchAction::Wait((RETRY_TIME_SECS * attempt) as u64, e))
        },
    }
}

/// Check for unknown identities with member group: takes in what has happened in try number
/// `attempt` and says what is next. The first try has number 1, and from the last number on no
/// failure leads to another try.
pub fn find_unknown_identities<E>(attempt: u64, event: SearchEvent<E>) -> (next: (
    u64,
    SearchAction<E>,
))
    ensures
        next == search_step(attempt, event),
        next.0 == attempt || next.0 == attempt + 1 <= MAX_TRIES,
        next.1 is Wait ==> next.0 == attempt + 1,
{
    match event {
        SearchEvent::Ready => (attempt, SearchAction::ReadGroups),
        SearchEvent::GroupsRead(Err(e)) => (
            attempt,
            SearchAction::Finish(Err(SearchError::Outside(e))),
        ),
        SearchEvent::GroupsRead(Ok(None)) => (
            attempt,
            SearchAction::Finish(
                Err(SearchError::Search(Error::MissingKey(SettingKey::MemberGroup))),
            ),
        ),
        SearchEvent::GroupsRead(Ok(Some(groups))) => (attempt, SearchAction::Search(groups)),
        SearchEvent::Searched(Ok(_)) => (attempt, SearchAction::Finish(Ok(()))),
        SearchEvent::Searched(Err(e)) => if attempt >= MAX_TRIES {
            (attempt, SearchAction::Finish(Err(SearchError::Outside(e))))
        } else {
            (attempt + 1, SearchAction::Wait(RETRY_TIME_SECS * attempt, e))
        },
    }
}

/// The address that the query interface is reached at.
pub fn server_address(config: &TSConfig) -> (address: String)
    ensures
        address@ == config.ip@ + ":"@ + decimal(config.port as int),
{
    let mut address = config.ip.clone();
    address.append(":");
    address.append(decimal_text(config.port as i32).as_str());
    address
}

/// How far the server has been searched: the clients of its groups are listed one group after the
/// other.
#[derive(Debug)]
pub struct IdentitySweep {
    group_ids: Vec<usize>,
    listed: usize,
    ids: Vec<usize>,
}

/// What a sweep amounts to.
pub ghost struct SweepView {
    pub group_ids: Seq<usize>,
    /// Number of groups whose clients are listed.
    pub listed: int,
    /// Clients listed so far.
    pub ids: Seq<usize>,
}

impl View for IdentitySweep {
    type V = SweepView;

    closed spec fn view(&self) -> SweepView {
        SweepView { group_ids: self.group_ids@, listed: self.listed as int, ids: self.ids@ }
    }
}

/// A sweep over `group_ids` before anything is listed.
pub open spec fn unlisted(group_ids: Seq<usize>) -> SweepView {
    SweepView { group_ids, listed: 0, ids: Seq::empty() }
}

/// What has happened in a sweep.
#[derive(Debug)]
pub enum SweepEvent {
    /// The server is connected.
    Connected,
    /// The clients of the group that was asked for.
    Listed(Vec<usize>),
}

/// What a sweep does next.
#[derive(Debug)]
pub enum SweepAction {
    /// List the clients of this group.
    ListClients(usize),
    /// Store these clients.
    Store(Vec<usize>),
}

/// Whether `action` is next in a sweep: the next group is asked for, and once all are listed, their
/// clients are stored.
pub open spec fn is_next_sweep_action(sweep: SweepView, action: SweepAction) -> bool {
    if sweep.listed < sweep.group_ids.len() {
        action is ListClients && action->ListClients_0 == sweep.group_ids[sweep.listed]
    } else {
        action is Store && action->Store_0@ == sweep.ids
    }
}

/// What a sweep does on `event`: the clients of the group that was asked for go behind those listed
/// before. Once all groups are listed, nothing more is taken in.
pub open spec fn sweep_stepped(
    before: SweepView,
    event: SweepEvent,
    action: SweepAction,
    after: SweepView,
) -> bool {
    &&& after.group_ids == before.group_ids
    &&& if event is Listed && before.listed < before.group_ids.len() {
        after.listed == before.listed + 1 && after.ids == before.ids + event->Listed_0@
    } else {
        after.listed == before.listed && after.ids == before.ids
    }
    &&& is_next_sweep_action(after, action)
}

impl IdentitySweep {
    /// Nothing listed yet.
    pub fn new(group_ids: Vec<usize>) -> (sweep: IdentitySweep)
        ensures
            sweep@ == unlisted(group_ids@),
    {
        IdentitySweep { group_ids, listed: 0, ids: Vec::new() }
    }
}

/// Searches the server: takes in what has happened and says what is next. Every group is asked for
/// once, in order, and what came back is stored together at the end.
pub fn find_unknown_inner(sweep: &mut IdentitySweep, event: SweepEvent) -> (action: SweepAction)
    ensures
        sweep_stepped(old(sweep)@, event, action, final(sweep)@),
{
    let groups: usize = sweep.group_ids.len();
    if let SweepEvent::Listed(list) = event {
        if sweep.listed < groups {
            let mut list = list;
            sweep.ids.append(&mut list);
            sweep.listed = sweep.listed + 1;
        }
    }
    if sweep.listed < groups {
        SweepAction::ListClients(sweep.group_ids[sweep.listed])
    } else {
        SweepAction::Store(sweep.ids.clone())
    }
}

/// Where the groups can be read: whether the search succeeds from try number `attempt` on, and how
/// often the server is searched. `answers` tells for each try whether the server can be searched.
pub open spec fn search_run(attempt: u64, answers: spec_fn(u64) -> bool) -> (bool, int)
    decreases MAX_TRIES - attempt,
    when attempt <= MAX_TRIES
{
    let event: SearchEvent<()> = SearchEvent::Searched(
        if answers(attempt) {
            Ok(())
        } else {
            Err(())
        },
    );
    match search_step(attempt, event) {
        (next, SearchAction::Wait(_, _)) => if next > attempt {
            let (found, searches) = search_run(next, answers);
            (found, searches + 1)
        } else {
            (false, 1)
        },
        (_, SearchAction::Finish(result)) => (result is Ok, 1),
        _ => (false, 1),
    }
}

/// Whether `n` is the first try from number `attempt` on in which the server can be searched.
pub open spec fn is_first_answer(attempt: u64, answers: spec_fn(u64) -> bool, n: u64) -> bool {
    &&& attempt <= n <= MAX_TRIES
    &&& answers(n)
    &&& forall|k: u64| attempt <= k < n ==> !#[trigger] answers(k)
}

/// The search ends with the first try in which the server can be searched.
pub proof fn law_search_ends_with_first_answer(
    attempt: u64,
    answers: spec_fn(u64) -> bool,
    n: u64,
)
    requires
        1 <= attempt <= MAX_TRIES,
        is_first_answer(attempt, answers, n),
    ensures
        search_run(attempt, answers) == (true, n - attempt + 1),
    decreases MAX_TRIES - attempt,
{
    if attempt < n {
        assert(!answers(attempt));
        law_search_ends_with_first_answer((attempt + 1) as u64, answers, n);
    }
}

/// A server that can be searched in no try is searched in each that is left, and then given up.
pub proof fn law_search_gives_up(attempt: u64, answers: spec_fn(u64) -> bool)
    requires
        1 <= attempt <= MAX_TRIES,
        forall|k: u64| attempt <= k <= MAX_TRIES ==> !#[trigger] answers(k),
    ensures
        search_run(attempt, answers) == (false, MAX_TRIES - attempt + 1),
    decreases MAX_TRIES - attempt,
{
    assert(!answers(attempt));
    if attempt < MAX_TRIES {
        law_search_gives_up((attempt + 1) as u64, answers);
    }
}

/// What a search does in one try: when the try can begin, when the groups were read, and when the
/// server was searched.
pub ghost struct SearchTry<E> {
    pub begun: SearchAction<E>,
    pub groups_read: SearchAction<E>,
    pub searched: SearchAction<E>,
}

/// Whether a search goes through `tries`, with the number of each in `numbers`: in each try the
/// groups are read and the server answers with its outcome, and after each but the last one the
/// search waits.
pub open spec fn is_search<E>(
    groups: Seq<Vec<usize>>,
    outcomes: Seq<Result<(), E>>,
    numbers: Seq<u64>,
    tries: Seq<SearchTry<E>>,
) -> bool {
    &&& outcomes.len() == groups.len() == tries.len()
    &&& numbers.len() == tries.len() + 1
    &&& numbers[0] == 1
    &&& forall|t: int|
        0 <= t < tries.len() ==> {
            let (first, begun) = search_step(numbers[t], SearchEvent::<E>::Ready);
            let (second, groups_read) = search_step(
                first,
                SearchEvent::<E>::GroupsRead(Ok(Some(groups[t]))),
            );
            let (third, searched) = search_step(second, SearchEvent::Searched(outcomes[t]));
            &&& #[trigger] tries[t] == SearchTry { begun, groups_read, searched }
            &&& numbers[t + 1] == third
        }
    &&& forall|t: int| 0 <= t < tries.len() - 1 ==> (#[trigger] tries[t]).searched is Wait
}

proof fn lemma_search_number<E>(
    groups: Seq<Vec<usize>>,
    outcomes: Seq<Result<(), E>>,
    numbers: Seq<u64>,
    tries: Seq<SearchTry<E>>,
    t: int,
)
    requires
        is_search(groups, outcomes, numbers, tries),
        0 <= t < tries.len(),
    ensures
        numbers[t] == t + 1,
        t < 10,
    decreases t,
{
    if t > 0 {
        lemma_search_number(groups, outcomes, numbers, tries, t - 1);
        assert(tries[t - 1].searched is Wait);
        assert(outcomes[t - 1] is Err);
        assert(numbers[t - 1 + 1] == t + 1);
    }
}

/// Over a whole search every try reads the groups and then searches for exactly those. A try that
/// fails is followed by a wait of a minute for each try so far and handed back, the tenth one ends
/// the search with what it failed with, and the search succeeds with the first try that does.
pub proof fn law_every_try_searches<E>(
    groups: Seq<Vec<usize>>,
    outcomes: Seq<Result<(), E>>,
    numbers: Seq<u64>,
    tries: Seq<SearchTry<E>>,
    t: int,
)
    requires
        is_search(groups, outcomes, numbers, tries),
        0 <= t < tries.len(),
    ensures
        tries.len() <= 10,
        tries[t].begun == SearchAction::<E>::ReadGroups,
        tries[t].groups_read == SearchAction::<E>::Search(groups[t]),
        outcomes[t] is Ok ==> tries[t].searched == SearchAction::<E>::Finish(Ok(())) && t
            == tries.len() - 1,
        outcomes[t] is Err && t < 9 ==> tries[t].searched == SearchAction::<E>::Wait(
            (60 * (t + 1)) as u64,
            outcomes[t]->Err_0,
        ),
        outcomes[t] is Err && t == 9 ==> tries[t].searched == SearchAction::<E>::Finish(
            Err(SearchError::Outside(outcomes[t]->Err_0)),
        ),
{
    lemma_search_number(groups, outcomes, numbers, tries, t);
    lemma_search_number(groups, outcomes, numbers, tries, tries.len() - 1);
    assert(tries[t].begun is ReadGroups);
}

/// In whichever try, a search succeeds only on the news that the server was searched.
pub proof fn law_success_is_a_search<E>(attempt: u64, event: SearchEvent<E>)
    requires
        search_step(attempt, event).1 == SearchAction::<E>::Finish(Ok(())),
    ensures
        event is Searched,
        event->Searched_0 is Ok,
{
}

/// In whichever try, groups that cannot be read end the search with the reason, and so does a
/// setting without a value.
pub proof fn law_no_search_without_groups<E>(attempt: u64, e: E)
    ensures
        search_step(attempt, SearchEvent::GroupsRead(Err(e))).1 == SearchAction::<E>::Finish(
            Err(SearchError::Outside(e)),
        ),
        search_step(attempt, SearchEvent::<E>::GroupsRead(Ok(None))).1 == SearchAction::<
            E,
        >::Finish(Err(SearchError::Search(Error::MissingKey(SettingKey::MemberGroup)))),
{
}

/// Seconds waited before try number `attempt`, where all before it failed.
pub open spec fn waited_before(attempt: u64) -> int
    decreases attempt,
{
    if attempt <= 1 {
        0
    } else {
        let event: SearchEvent<()> = SearchEvent::Searched(Err(()));
        let wait = search_step((attempt - 1) as u64, event).1;
        waited_before((attempt - 1) as u64) + wait->Wait_0
    }
}

/// The waits grow from try to try: before try number `n` they add up to `30 * n * (n - 1)` seconds.
pub proof fn law_waited_before(attempt: u64)
    requires
        1 <= attempt <= MAX_TRIES,
    ensures
        waited_before(attempt) == 30 * attempt * (attempt - 1),
    decreases attempt,
{
    if attempt > 1 {
        law_waited_before((attempt - 1) as u64);
        assert(30 * (attempt - 1) * (attempt - 2) + 60 * (attempt - 1) == 30 * attempt * (attempt
            - 1)) by (nonlinear_arith);
    }
}

/// Whether a sweep over `group_ids` runs through `states`: on being connected it does the first of
/// the `actions`, and on each of the `lists` the next one.
pub open spec fn is_sweep(
    group_ids: Seq<usize>,
    lists: Seq<Vec<usize>>,
    states: Seq<SweepView>,
    actions: Seq<SweepAction>,
) -> bool {
    &&& states.len() == actions.len() == lists.len() + 1
    &&& sweep_stepped(unlisted(group_ids), SweepEvent::Connected, actions[0], states[0])
    &&& forall|i: int|
        0 <= i < lists.len() ==> sweep_stepped(
            #[trigger] states[i],
            SweepEvent::Listed(lists[i]),
            actions[i + 1],
            states[i + 1],
        )
}

/// After the first `n` lists a sweep has all that was listed, in order, and does what is next.
proof fn lemma_sweep_state(
    group_ids: Seq<usize>,
    lists: Seq<Vec<usize>>,
    states: Seq<SweepView>,
    actions: Seq<SweepAction>,
    n: int,
)
    requires
        is_sweep(group_ids, lists, states, actions),
        lists.len() == group_ids.len(),
        0 <= n <= lists.len(),
    ensures
        states[n].group_ids == group_ids,
        states[n].listed == n,
        states[n].ids == lists.take(n).map_values(|list: Vec<usize>| list@).flatten(),
        is_next_sweep_action(states[n], actions[n]),
    decreases n,
{
    let views = lists.take(n).map_values(|list: Vec<usize>| list@);
    if n == 0 {
        assert(states[n].ids =~= views.flatten());
    } else {
        lemma_sweep_state(group_ids, lists, states, actions, n - 1);
        assert(sweep_stepped(
            states[n - 1],
            SweepEvent::Listed(lists[n - 1]),
            actions[n - 1 + 1],
            states[n - 1 + 1],
        ));
        let fewer = lists.take(n - 1).map_values(|list: Vec<usize>| list@);
        assert(views.drop_last() =~= fewer);
        views.lemma_flatten_and_flatten_alt_are_equivalent();
        fewer.lemma_flatten_and_flatten_alt_are_equivalent();
    }
}

/// A sweep asks for each group once, in order, and then stores everything that was listed, in that
/// order. Without groups it stores nothing at once.
pub proof fn law_sweep_stores_all(
    group_ids: Seq<usize>,
    lists: Seq<Vec<usize>>,
    states: Seq<SweepView>,
    actions: Seq<SweepAction>,
)
    requires
        is_sweep(group_ids, lists, states, actions),
        lists.len() == group_ids.len(),
    ensures
        actions.len() == group_ids.len() + 1,
        forall|i: int|
            0 <= i < group_ids.len() ==> (#[trigger] actions[i]) is ListClients
                && actions[i]->ListClients_0 == group_ids[i],
        actions.last() is Store,
        actions.last()->Store_0@ == lists.map_values(|list: Vec<usize>| list@).flatten(),
{
    assert forall|i: int| 0 <= i < group_ids.len() implies (#[trigger] actions[i]) is ListClients
        && actions[i]->ListClients_0 == group_ids[i] by {
        lemma_sweep_state(group_ids, lists, states, actions, i);
    }
    let n = lists.len() as int;
    lemma_sweep_state(group_ids, lists, states, actions, n);
    assert(lists.take(n) =~= lists);
}

} // verus!
