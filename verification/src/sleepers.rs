//! The table of sleeping tickers.
//!
//! A ticker that finds no work goes to sleep under a non-zero id and leaves a
//! waker behind. A notification takes one waker out of the table; the ticker
//! it belonged to stays counted until it wakes up, so it is "sleeping and
//! notified" for as long as it is counted but has no waker here.

use crate::handle::{clone_waker, will_wake};
use std::task::Waker;
use vstd::prelude::*;

verus! {

/// A list of sleeping tickers.
#[derive(Debug)]
pub struct Sleepers {
    /// Number of sleeping tickers (both notified and unnotified).
    count: usize,
    /// Ids and wakers of sleeping unnotified tickers.
    wakers: Vec<(usize, Waker)>,
    /// Reclaimed ids.
    free_ids: Vec<usize>,
}

/// What a `Sleepers` table holds.
pub struct SleepersView {
    pub count: nat,
    pub wakers: Seq<(usize, Waker)>,
    pub free_ids: Seq<usize>,
}

impl SleepersView {
    /// The ids of the unnotified sleepers, in registration order.
    pub open spec fn ids(self) -> Seq<usize> {
        Seq::new(self.wakers.len(), |i: int| self.wakers[i].0)
    }

    /// The largest id handed out so far.
    pub open spec fn high_water(self) -> nat {
        self.count + self.free_ids.len()
    }

    /// An empty table.
    pub open spec fn empty() -> SleepersView {
        SleepersView { count: 0, wakers: Seq::empty(), free_ids: Seq::empty() }
    }

    /// The table's invariant: at most one sleeper is notified at a time, and
    /// the ids in use and the reclaimed ids are distinct, non-zero and no
    /// larger than the number of ids handed out.
    pub open spec fn wf(self) -> bool {
        &&& self.wakers.len() <= self.count <= self.wakers.len() + 1
        &&& self.ids().no_duplicates()
        &&& self.free_ids.no_duplicates()
        &&& forall|i: int|
            0 <= i < self.wakers.len() ==> 1 <= #[trigger] self.ids()[i] <= self.high_water()
                && !self.free_ids.contains(self.ids()[i])
        &&& forall|j: int|
            0 <= j < self.free_ids.len() ==> 1 <= #[trigger] self.free_ids[j] <= self.high_water()
    }

    /// True if a sleeping ticker is notified or no tickers are sleeping.
    pub open spec fn is_notified(self) -> bool {
        self.count == 0 || self.count > self.wakers.len()
    }

    /// True if `id` has a waker in the table: its ticker sleeps unnotified.
    pub open spec fn has_waker(self, id: usize) -> bool {
        self.ids().contains(id)
    }

    /// True if `id` can be the id of a sleeping ticker: either it has a waker
    /// here, or some sleeper is notified and `id` was handed out and not
    /// reclaimed.
    pub open spec fn is_sleeping(self, id: usize) -> bool {
        ||| self.has_waker(id)
        ||| (self.wakers.len() < self.count && 1 <= id <= self.high_water()
            && !self.free_ids.contains(id))
    }

    /// Where the waker of `id` stands in the table.
    pub open spec fn position(self, id: usize) -> int {
        self.ids().index_of(id)
    }

    /// The id that the next `insert` hands out: the reclaimed id on top of
    /// the stack, or else one more than the number of sleepers.
    pub open spec fn next_id(self) -> usize {
        if self.free_ids.len() > 0 {
            self.free_ids.last()
        } else {
            (self.count + 1) as usize
        }
    }

    /// The table after a new sleeper registered `waker`.
    pub open spec fn inserted(self, waker: Waker) -> SleepersView {
        SleepersView {
            count: self.count + 1,
            wakers: self.wakers.push((self.next_id(), waker)),
            free_ids: if self.free_ids.len() > 0 {
                self.free_ids.drop_last()
            } else {
                self.free_ids
            },
        }
    }

    /// The table after the notified sleeper `id` registered `waker` again.
    pub open spec fn reregistered(self, id: usize, waker: Waker) -> SleepersView {
        SleepersView { wakers: self.wakers.push((id, waker)), ..self }
    }

    /// The table after the unnotified sleeper `id` left `waker` as its waker.
    pub open spec fn refreshed(self, id: usize, waker: Waker) -> SleepersView {
        SleepersView { wakers: self.wakers.update(self.position(id), (id, waker)), ..self }
    }

    /// The waker that `remove(id)` returns.
    pub open spec fn removed_waker(self, id: usize) -> Option<Waker> {
        if self.has_waker(id) {
            Some(self.wakers[self.position(id)].1)
        } else {
            None
        }
    }

    /// The table after the sleeper `id` woke up.
    pub open spec fn removed(self, id: usize) -> SleepersView {
        SleepersView {
            count: (self.count - 1) as nat,
            wakers: if self.has_waker(id) {
                self.wakers.remove(self.position(id))
            } else {
                self.wakers
            },
            free_ids: self.free_ids.push(id),
        }
    }

    /// The waker that `notify` returns: the one registered last, if no
    /// sleeper is notified yet.
    pub open spec fn notify_waker(self) -> Option<Waker> {
        if self.wakers.len() == self.count && self.count > 0 {
            Some(self.wakers.last().1)
        } else {
            None
        }
    }

    /// The table after `notify`.
    pub open spec fn notified(self) -> SleepersView {
        if self.wakers.len() == self.count && self.count > 0 {
            SleepersView { wakers: self.wakers.drop_last(), ..self }
        } else {
            self
        }
    }
}

impl Sleepers {
    pub closed spec fn view(&self) -> SleepersView {
        SleepersView { count: self.count as nat, wakers: self.wakers@, free_ids: self.free_ids@ }
    }

    /// Creates an empty table.
    pub fn new() -> (table: Sleepers)
        ensures
            table@ == SleepersView::empty(),
            table@.wf(),
    {
        let table = Sleepers { count: 0, wakers: Vec::new(), free_ids: Vec::new() };
        assert(table@.ids() =~= Seq::<usize>::empty());
        table
    }

    /// Number of sleeping tickers, notified or not.
    pub fn count(&self) -> (n: usize)
        ensures
            n == self@.count,
    {
        self.count
    }

    /// Number of sleeping tickers that are not notified.
    pub fn unnotified(&self) -> (n: usize)
        ensures
            n == self@.wakers.len(),
    {
        self.wakers.len()
    }

    /// Returns `true` if a sleeping ticker is notified or no tickers are sleeping.
    pub fn is_notified(&self) -> (notified: bool)
        ensures
            notified == self@.is_notified(),
    {
        self.count == 0 || self.count > self.wakers.len()
    }

    /// Returns `true` if `id` has a waker in the table.
    pub fn has_waker(&self, id: usize) -> (found: bool)
        ensures
            found == self@.has_waker(id),
    {
        let mut i: usize = 0;
        while i < self.wakers.len()
            invariant
                i <= self.wakers.len(),
                forall|j: int| 0 <= j < i ==> self@.ids()[j] != id,
            decreases self.wakers.len() - i,
        {
            if self.wakers[i].0 == id {
                assert(self@.ids()[i as int] == id);
                return true;
            }
            i += 1;
        }
        false
    }

    /// Returns `true` if `id` can be the id of a sleeping ticker: the
    /// condition under which `update` and `remove` accept it.
    #[verifier::loop_isolation(false)]
    pub fn is_sleeping(&self, id: usize) -> (sleeping: bool)
        ensures
            sleeping == self@.is_sleeping(id),
    {
        if self.has_waker(id) {
            return true;
        }
        if self.wakers.len() >= self.count || id == 0 {
            return false;
        }
        if id > self.count && id - self.count > self.free_ids.len() {
            return false;
        }
        let mut j: usize = 0;
        while j < self.free_ids.len()
            invariant
                j <= self.free_ids.len(),
                forall|k: int| 0 <= k < j ==> self.free_ids@[k] != id,
            decreases self.free_ids.len() - j,
        {
            if self.free_ids[j] == id {
                assert(self.free_ids@[j as int] == id);
                return false;
            }
            j += 1;
        }
        assert(!self.free_ids@.contains(id));
        true
    }

    /// Inserts a new sleeping ticker with `copy` as its waker, and returns its
    /// id: the most recently reclaimed one, or one more than the number of
    /// sleepers if none is reclaimed.
    pub fn register(&mut self, copy: Waker) -> (id: usize)
        requires
            old(self)@.wf(),
            old(self)@.count < usize::MAX,
        ensures
            final(self)@.wf(),
            id == old(self)@.next_id(),
            id != 0,
            !old(self)@.is_sleeping(id),
            final(self)@ == old(self)@.inserted(copy),
            final(self)@.count == old(self)@.count + 1,
            final(self)@.wakers == old(self)@.wakers.push((id, copy)),
            final(self)@.is_notified() == (old(self)@.count > old(self)@.wakers.len()),
    {
        let ghost before = self@;
        let id = match self.free_ids.pop() {
            Some(id) => id,
            None => self.count + 1,
        };
        self.count += 1;
        self.wakers.push((id, copy));
        proof {
            lemma_inserted_wf(before, copy);
            assert(self@.wakers =~= before.inserted(copy).wakers);
            assert(self@.free_ids =~= before.inserted(copy).free_ids);
        }
        id
    }

    /// Inserts a new sleeping ticker and returns its id.
    ///
    /// The id is the most recently reclaimed one, or one more than the number
    /// of sleepers if none is reclaimed. The table keeps a copy of `waker`,
    /// made by `Waker::clone`: what `register` does with that copy.
    pub fn insert(&mut self, waker: &Waker) -> (id: usize)
        requires
            old(self)@.wf(),
            old(self)@.count < usize::MAX,
        ensures
            final(self)@.wf(),
            id == old(self)@.next_id(),
            id != 0,
            !old(self)@.is_sleeping(id),
            final(self)@ == old(self)@.inserted(final(self)@.wakers.last().1),
            final(self)@.count == old(self)@.count + 1,
            final(self)@.wakers.len() == old(self)@.wakers.len() + 1,
            final(self)@.is_notified() == (old(self)@.count > old(self)@.wakers.len()),
    {
        self.register(clone_waker(waker))
    }

    /// The place of the waker of `id` in the table, if it has one.
    pub fn find(&self, id: usize) -> (place: Option<usize>)
        requires
            self@.wf(),
        ensures
            place is Some == self@.has_waker(id),
            place matches Some(at) ==> at == self@.position(id) && at < self@.wakers.len()
                && self@.wakers[at as int].0 == id,
    {
        let mut i: usize = 0;
        while i < self.wakers.len()
            invariant
                i <= self.wakers.len(),
                self@.wf(),
                forall|j: int| 0 <= j < i ==> self@.ids()[j] != id,
            decreases self.wakers.len() - i,
        {
            if self.wakers[i].0 == id {
                proof {
                    lemma_position(self@, id, i as int);
                }
                return Some(i);
            }
            i += 1;
        }
        None
    }

    /// The waker at place `at` of the table.
    pub fn waker_at(&self, at: usize) -> (waker: &Waker)
        requires
            at < self@.wakers.len(),
        ensures
            *waker == self@.wakers[at as int].1,
    {
        &self.wakers[at].1
    }

    /// Brings the waker at place `at` up to date for a new poll.
    ///
    /// `same` is the answer to the question whether the waker in place wakes
    /// the same task as the waker of the poll. If it does, it stays. If it
    /// does not, `copy`, a copy of the waker of the poll, takes its place.
    pub fn refresh(&mut self, at: usize, same: bool, copy: Option<Waker>)
        requires
            old(self)@.wf(),
            at < old(self)@.wakers.len(),
            !same ==> copy is Some,
        ensures
            final(self)@.wf(),
            same ==> final(self)@ == old(self)@,
            !same ==> final(self)@.wakers == old(self)@.wakers.update(
                at as int,
                (old(self)@.wakers[at as int].0, copy->0),
            ),
            !same ==> final(self)@ == old(self)@.refreshed(
                old(self)@.wakers[at as int].0,
                copy->0,
            ),
    {
        if !same {
            let ghost before = self@;
            let id = self.wakers[at].0;
            match copy {
                Some(copy) => {
                    self.wakers[at] = (id, copy);
                    proof {
                        lemma_position(before, id, at as int);
                        lemma_refreshed_wf(before, id, copy);
                        assert(self@.wakers =~= before.refreshed(id, copy).wakers);
                    }
                },
                None => {},
            }
        }
    }

    /// Registers `copy` as the waker of the sleeper `id`, which was notified
    /// and so has no waker in the table.
    pub fn reregister(&mut self, id: usize, copy: Waker)
        requires
            old(self)@.wf(),
            old(self)@.is_sleeping(id),
            !old(self)@.has_waker(id),
        ensures
            final(self)@.wf(),
            final(self)@ == old(self)@.reregistered(id, copy),
            final(self)@.wakers == old(self)@.wakers.push((id, copy)),
            final(self)@.wakers.len() == final(self)@.count,
    {
        proof {
            lemma_reregistered_wf(self@, id, copy);
        }
        self.wakers.push((id, copy));
    }

    /// Re-inserts a sleeping ticker's waker if it was notified.
    ///
    /// Returns `true` if the ticker was notified, that is, if `id` had no
    /// waker in the table: a copy of `waker` is then registered for it, as
    /// `reregister` does. If it has one, that waker stays if it wakes the same
    /// task as `waker`, as far as `Waker::will_wake` can tell, and else gives
    /// way to a copy of `waker`, as `refresh` does.
    pub fn update(&mut self, id: usize, waker: &Waker) -> (was_notified: bool)
        requires
            old(self)@.wf(),
            old(self)@.is_sleeping(id),
        ensures
            final(self)@.wf(),
            was_notified == !old(self)@.has_waker(id),
            was_notified ==> final(self)@ == old(self)@.reregistered(
                id,
                final(self)@.wakers.last().1,
            ),
            !was_notified ==> final(self)@ == old(self)@.refreshed(
                id,
                final(self)@.wakers[old(self)@.position(id)].1,
            ),
            final(self)@.count == old(self)@.count,
            final(self)@.free_ids == old(self)@.free_ids,
    {
        let ghost before = self@;
        match self.find(id) {
            Some(at) => {
                let same = will_wake(self.waker_at(at), waker);
                let copy = if same {
                    None
                } else {
                    Some(clone_waker(waker))
                };
                self.refresh(at, same, copy);
                proof {
                    if same {
                        assert(before.wakers =~= before.refreshed(
                            id,
                            before.wakers[at as int].1,
                        ).wakers);
                    }
                }
                false
            },
            None => {
                self.reregister(id, clone_waker(waker));
                true
            },
        }
    }

    /// Removes a previously inserted sleeping ticker and reclaims its id.
    ///
    /// Returns the ticker's waker, or `None` if a notification took it.
    pub fn remove(&mut self, id: usize) -> (waker: Option<Waker>)
        requires
            old(self)@.wf(),
            old(self)@.is_sleeping(id),
        ensures
            final(self)@.wf(),
            waker == old(self)@.removed_waker(id),
            final(self)@ == old(self)@.removed(id),
    {
        let ghost before = self@;
        proof {
            lemma_removed_wf(before, id);
            if before.has_waker(id) {
                assert(before.wakers.len() > 0);
            }
        }
        self.count -= 1;
        self.free_ids.push(id);
        let mut i: usize = self.wakers.len();
        while i > 0
            invariant
                i <= self.wakers.len(),
                before.wf(),
                before == old(self)@,
                before.removed(id).wf(),
                self@.count == before.count - 1,
                self@.wakers == before.wakers,
                self@.free_ids == before.free_ids.push(id),
                forall|j: int| i <= j < before.wakers.len() ==> before.ids()[j] != id,
            decreases i,
        {
            i -= 1;
            if self.wakers[i].0 == id {
                proof {
                    assert(before.ids()[i as int] == id);
                    lemma_position(before, id, i as int);
                }
                let entry = self.wakers.remove(i);
                assert(self@.wakers =~= before.removed(id).wakers);
                assert(self@ == before.removed(id));
                return Some(entry.1);
            }
        }
        assert(!before.has_waker(id));
        None
    }

    /// Returns the waker of the sleeper registered last, unless a sleeper is
    /// notified already or no ticker sleeps: then it returns `None`.
    pub fn notify(&mut self) -> (waker: Option<Waker>)
        requires
            old(self)@.wf(),
        ensures
            final(self)@.wf(),
            waker == old(self)@.notify_waker(),
            final(self)@ == old(self)@.notified(),
    {
        let ghost before = self@;
        if self.wakers.len() == self.count {
            proof {
                lemma_notified_wf(before);
            }
            match self.wakers.pop() {
                Some(item) => {
                    assert(self@.wakers =~= before.wakers.drop_last());
                    Some(item.1)
                },
                None => None,
            }
        } else {
            None
        }
    }
}

/// In a well-formed table the waker of `id` stands where `id` is found.
pub proof fn lemma_position(table: SleepersView, id: usize, i: int)
    requires
        table.wf(),
        0 <= i < table.wakers.len(),
        table.wakers[i].0 == id,
    ensures
        table.has_waker(id),
        table.position(id) == i,
{
    assert(table.ids()[i] == id);
    let k = table.ids().index_of(id);
    assert(0 <= k < table.ids().len() && table.ids()[k] == id);
}

/// `insert` keeps the table well-formed, and the id it hands out is new.
pub proof fn lemma_inserted_wf(table: SleepersView, waker: Waker)
    requires
        table.wf(),
        table.count < usize::MAX,
    ensures
        table.inserted(waker).wf(),
        table.next_id() != 0,
        !table.is_sleeping(table.next_id()),
{
    let after = table.inserted(waker);
    let id = table.next_id();
    let n = table.wakers.len() as int;
    assert(after.ids() =~= table.ids().push(id));
    if table.free_ids.len() > 0 {
        let top = table.free_ids.len() - 1;
        assert(table.free_ids[top] == id);
        assert(table.free_ids.contains(id));
        assert(after.high_water() == table.high_water());
    } else {
        assert(after.free_ids =~= table.free_ids);
        assert(after.high_water() == table.high_water() + 1);
        assert(id == table.count + 1);
    }
    assert forall|i: int| 0 <= i < n implies table.ids()[i] != id by {
        assert(!table.free_ids.contains(table.ids()[i]));
        assert(table.ids()[i] <= table.high_water());
    }
    if table.has_waker(id) {
        let i = table.ids().index_of(id);
        assert(0 <= i < n && table.ids()[i] == id);
    }
    assert(!table.is_sleeping(id));
    assert forall|i: int, j: int|
        0 <= i < after.ids().len() && 0 <= j < after.ids().len() && i != j implies after.ids()[i]
        != after.ids()[j] by {
        if i < n {
            assert(after.ids()[i] == table.ids()[i]);
        }
        if j < n {
            assert(after.ids()[j] == table.ids()[j]);
        }
    }
    assert forall|j: int| 0 <= j < after.free_ids.len() implies 1 <= #[trigger] after.free_ids[j]
        <= after.high_water() by {
        assert(after.free_ids[j] == table.free_ids[j]);
    }
    assert forall|i: int| 0 <= i < after.wakers.len() implies 1 <= #[trigger] after.ids()[i]
        <= after.high_water() && !after.free_ids.contains(after.ids()[i]) by {
        if after.free_ids.contains(after.ids()[i]) {
            let j = choose|j: int|
                0 <= j < after.free_ids.len() && after.free_ids[j] == after.ids()[i];
            assert(table.free_ids[j] == after.ids()[i]);
            assert(table.free_ids.contains(after.ids()[i]));
            if i < n {
                assert(after.ids()[i] == table.ids()[i]);
            } else {
                assert(after.ids()[i] == id);
                assert(table.free_ids.len() > 0);
                assert(table.free_ids[table.free_ids.len() - 1] == id);
            }
        }
        if i < n {
            assert(after.ids()[i] == table.ids()[i]);
        }
    }
}

/// Registering a notified sleeper again keeps the table well-formed.
pub proof fn lemma_reregistered_wf(table: SleepersView, id: usize, waker: Waker)
    requires
        table.wf(),
        table.is_sleeping(id),
        !table.has_waker(id),
    ensures
        table.reregistered(id, waker).wf(),
        table.reregistered(id, waker).wakers.len() == table.count,
{
    let after = table.reregistered(id, waker);
    assert(after.ids() =~= table.ids().push(id));
    assert forall|i: int| 0 <= i < table.wakers.len() implies table.ids()[i] != id by {
        if table.ids()[i] == id {
            assert(table.ids().contains(id));
        }
    }
}

/// Replacing the waker of an unnotified sleeper keeps the table well-formed.
pub proof fn lemma_refreshed_wf(table: SleepersView, id: usize, waker: Waker)
    requires
        table.wf(),
        table.has_waker(id),
    ensures
        table.refreshed(id, waker).wf(),
        table.refreshed(id, waker).ids() == table.ids(),
{
    let k = table.position(id);
    assert(0 <= k < table.ids().len() && table.ids()[k] == id);
    assert(table.refreshed(id, waker).ids() =~= table.ids());
}

/// `remove` keeps the table well-formed.
pub proof fn lemma_removed_wf(table: SleepersView, id: usize)
    requires
        table.wf(),
        table.is_sleeping(id),
    ensures
        table.removed(id).wf(),
        table.count > 0,
        !table.removed(id).has_waker(id),
{
    let after = table.removed(id);
    if table.has_waker(id) {
        let k = table.position(id);
        assert(0 <= k < table.ids().len() && table.ids()[k] == id);
        assert(after.ids() =~= table.ids().remove(k));
        assert(!table.free_ids.contains(table.ids()[k]));
        assert forall|i: int| 0 <= i < after.wakers.len() implies after.ids()[i] != id by {
            if i < k {
                assert(after.ids()[i] == table.ids()[i]);
            } else {
                assert(after.ids()[i] == table.ids()[i + 1]);
            }
        }
        assert forall|i: int, j: int|
            0 <= i < after.ids().len() && 0 <= j < after.ids().len() && i != j implies after.ids()[i]
            != after.ids()[j] by {
            let oi = if i < k { i } else { i + 1 };
            let oj = if j < k { j } else { j + 1 };
            assert(after.ids()[i] == table.ids()[oi]);
            assert(after.ids()[j] == table.ids()[oj]);
        }
        assert forall|i: int| 0 <= i < after.wakers.len() implies 1 <= #[trigger] after.ids()[i]
            <= after.high_water() && !after.free_ids.contains(after.ids()[i]) by {
            let oi = if i < k { i } else { i + 1 };
            assert(after.ids()[i] == table.ids()[oi]);
            assert(!table.free_ids.contains(table.ids()[oi]));
            lemma_push_contains(table.free_ids, id, after.ids()[i]);
        }
    } else {
        assert(after.ids() =~= table.ids());
        assert forall|i: int| 0 <= i < after.wakers.len() implies 1 <= #[trigger] after.ids()[i]
            <= after.high_water() && !after.free_ids.contains(after.ids()[i]) by {
            assert(table.ids().contains(table.ids()[i]));
            assert(!table.free_ids.contains(table.ids()[i]));
            lemma_push_contains(table.free_ids, id, after.ids()[i]);
        }
    }
    assert forall|i: int, j: int|
        0 <= i < after.free_ids.len() && 0 <= j < after.free_ids.len() && i != j implies after.free_ids[i]
        != after.free_ids[j] by {
        if i < table.free_ids.len() {
            assert(table.free_ids.contains(table.free_ids[i]));
        }
        if j < table.free_ids.len() {
            assert(table.free_ids.contains(table.free_ids[j]));
        }
    }
    if after.has_waker(id) {
        let i = after.ids().index_of(id);
        assert(0 <= i < after.ids().len() && after.ids()[i] == id);
        if !table.has_waker(id) {
            assert(table.ids().contains(id));
        }
    }
}

/// `notify` keeps the table well-formed.
pub proof fn lemma_notified_wf(table: SleepersView)
    requires
        table.wf(),
    ensures
        table.notified().wf(),
        table.notified().is_notified(),
{
    let after = table.notified();
    if table.wakers.len() == table.count && table.count > 0 {
        assert(after.ids() =~= table.ids().drop_last());
        assert forall|i: int| 0 <= i < after.wakers.len() implies 1 <= #[trigger] after.ids()[i]
            <= after.high_water() && !after.free_ids.contains(after.ids()[i]) by {
            assert(after.ids()[i] == table.ids()[i]);
        }
    }
}

/// A sleeper is still a sleeper after a notification: if the notification
/// took its waker, it is the notified one.
pub proof fn lemma_notified_keeps_sleepers(table: SleepersView, id: usize)
    requires
        table.wf(),
        table.is_sleeping(id),
    ensures
        table.notified().is_sleeping(id),
{
    let after = table.notified();
    if table.wakers.len() == table.count && table.count > 0 {
        assert(after.ids() =~= table.ids().drop_last());
        let k = table.ids().index_of(id);
        assert(0 <= k < table.ids().len() && table.ids()[k] == id);
        if k < after.ids().len() {
            assert(after.ids()[k] == id);
        } else {
            assert(!table.free_ids.contains(table.ids()[k]));
        }
    }
}

/// A value is in a sequence with one more item if it is that item or was in
/// the sequence already.
proof fn lemma_push_contains(s: Seq<usize>, pushed: usize, x: usize)
    ensures
        s.push(pushed).contains(x) <==> (x == pushed || s.contains(x)),
{
    if s.push(pushed).contains(x) {
        let j = choose|j: int| 0 <= j < s.push(pushed).len() && s.push(pushed)[j] == x;
        if j < s.len() {
            assert(s[j] == x);
        }
    }
    if s.contains(x) {
        let j = choose|j: int| 0 <= j < s.len() && s[j] == x;
        assert(s.push(pushed)[j] == x);
    }
    if x == pushed {
        assert(s.push(pushed)[s.len() as int] == x);
    }
}

} // verus!
