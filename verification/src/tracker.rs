use vstd::multiset::Multiset;
use vstd::prelude::*;
use vstd::seq_lib::group_to_multiset_ensures;

verus! {

/// What a traversal has done so far: whether anything changed, and the id of
/// each rule that fired, in the order in which the rules fired.
pub struct ChangeTracker {
    changed: bool,
    fired: Vec<String>,
}

/// The mathematical value of a [`ChangeTracker`].
pub struct Record {
    /// Whether a rewrite or a detection has been registered.
    pub changed: bool,
    /// The ids of the rules that fired, oldest first.
    pub fired: Seq<Seq<char>>,
}

impl Record {
    /// How often each rule id fired.
    pub open spec fn counts(self) -> Multiset<Seq<char>> {
        self.fired.to_multiset()
    }

    /// The record after the rules with the ids `fired` have fired in that
    /// order, and after a detection if `detected` holds.
    pub open spec fn extended(self, fired: Seq<Seq<char>>, detected: bool) -> Record {
        Record {
            changed: self.changed || detected || fired.len() > 0,
            fired: self.fired + fired,
        }
    }
}

/// Registering in two steps is registering all of it at once.
pub proof fn lemma_extended_twice(
    record: Record,
    first: Seq<Seq<char>>,
    first_detected: bool,
    second: Seq<Seq<char>>,
    second_detected: bool,
)
    ensures
        record.extended(first, first_detected).extended(second, second_detected)
            == record.extended(first + second, first_detected || second_detected),
{
    assert((record.fired + first) + second =~= record.fired + (first + second));
}

/// Registering nothing leaves the record as it is.
pub proof fn lemma_extended_by_nothing(record: Record)
    ensures
        record.extended(Seq::empty(), false) == record,
{
}

/// The distinct entries of `log`, each at the place of its first occurrence.
pub open spec fn distinct_ids(log: Seq<Seq<char>>) -> Seq<Seq<char>>
    decreases log.len(),
{
    if log.len() == 0 {
        Seq::empty()
    } else {
        let before = distinct_ids(log.drop_last());
        if before.contains(log.last()) {
            before
        } else {
            before.push(log.last())
        }
    }
}

/// One line of a snapshot: a rule id and how often that rule fired.
#[derive(Debug, PartialEq, Eq)]
pub struct RuleCount {
    pub id: String,
    pub count: usize,
}

/// The state of a tracker at one moment.
#[derive(Debug, PartialEq, Eq)]
pub struct Snapshot {
    /// Whether a rewrite or a detection has been registered.
    pub changed: bool,
    /// A line for each rule id that fired, in the order of first firing.
    pub counts: Vec<RuleCount>,
}

/// The ids of the lines of a snapshot, in order.
pub open spec fn ids_of(lines: Seq<RuleCount>) -> Seq<Seq<char>> {
    Seq::new(lines.len(), |i: int| lines[i].id@)
}

/// An entry of `distinct_ids(log)` occurs in `log`, and the other way round;
/// no entry occurs twice.
pub proof fn lemma_distinct_ids(log: Seq<Seq<char>>)
    ensures
        forall|id: Seq<char>| distinct_ids(log).contains(id) <==> log.contains(id),
        distinct_ids(log).no_duplicates(),
    decreases log.len(),
{
    if log.len() > 0 {
        let prefix = log.drop_last();
        let before = distinct_ids(prefix);
        lemma_distinct_ids(prefix);
        assert forall|id: Seq<char>| distinct_ids(log).contains(id) <==> log.contains(id) by {
            if log.contains(id) {
                let k = choose|k: int| 0 <= k < log.len() && log[k] == id;
                if k < log.len() - 1 {
                    assert(prefix[k] == id);
                    assert(prefix.contains(id));
                    let j = choose|j: int| 0 <= j < before.len() && before[j] == id;
                    assert(distinct_ids(log)[j] == id);
                } else {
                    if !before.contains(id) {
                        assert(distinct_ids(log)[before.len() as int] == id);
                    }
                }
            }
            if distinct_ids(log).contains(id) {
                let j = choose|j: int|
                    0 <= j < distinct_ids(log).len() && distinct_ids(log)[j] == id;
                if j < before.len() {
                    assert(prefix.contains(id));
                    let k = choose|k: int| 0 <= k < prefix.len() && prefix[k] == id;
                    assert(log[k] == id);
                } else {
                    assert(log[log.len() - 1] == id);
                }
            }
        }
    }
}

impl View for ChangeTracker {
    type V = Record;

    closed spec fn view(&self) -> Record {
        Record {
            changed: self.changed,
            fired: Seq::new(self.fired.len() as nat, |i: int| self.fired[i]@),
        }
    }
}

impl ChangeTracker {
    /// A tracker that has registered nothing.
    pub fn new() -> (tracker: Self)
        ensures
            tracker@ == (Record { changed: false, fired: Seq::empty() }),
    {
        let tracker = ChangeTracker { changed: false, fired: Vec::new() };
        assert(tracker@.fired =~= Seq::empty());
        tracker
    }

    /// Registers that the rule with this id fired: its count goes up by one
    /// and the changed flag is set.
    pub fn record(&mut self, rule_id: &str)
        ensures
            final(self)@ == old(self)@.extended(seq![rule_id@], false),
            final(self)@.counts() == old(self)@.counts().insert(rule_id@),
    {
        self.changed = true;
        self.fired.push(rule_id.to_owned());
        proof {
            broadcast use group_to_multiset_ensures;

            assert(self@.fired =~= old(self)@.fired + seq![rule_id@]);
            assert(self@.fired =~= old(self)@.fired.push(rule_id@));
        }
    }

    /// Registers a finding that rewrites nothing: the changed flag is set and
    /// no count moves.
    pub fn flag(&mut self)
        ensures
            final(self)@ == old(self)@.extended(Seq::empty(), true),
    {
        self.changed = true;
    }

    /// Whether a rewrite or a detection has been registered.
    pub fn changed(&self) -> (changed: bool)
        ensures
            changed == self@.changed,
    {
        self.changed
    }

    /// The ids of the rules that fired, in the order in which they fired.
    pub fn fired(&self) -> (fired: &Vec<String>)
        ensures
            fired@.len() == self@.fired.len(),
            forall|i: int| 0 <= i < fired@.len() ==> (#[trigger] fired@[i])@ == self@.fired[i],
    {
        &self.fired
    }

    /// How often the rule with this id fired.
    pub fn count(&self, rule_id: &str) -> (count: usize)
        ensures
            count == self@.counts().count(rule_id@),
    {
        let wanted = rule_id.to_owned();
        let mut count: usize = 0;
        let mut i: usize = 0;
        proof {
            assert(self@.fired.subrange(0, 0) =~= Seq::empty());
            Seq::<Seq<char>>::empty().to_multiset_ensures();
        }
        while i < self.fired.len()
            invariant
                i <= self.fired.len(),
                self@.fired.len() == self.fired.len(),
                forall|k: int| 0 <= k < self.fired.len() ==> self@.fired[k] == self.fired[k]@,
                wanted@ == rule_id@,
                count <= i,
                count == self@.fired.subrange(0, i as int).to_multiset().count(rule_id@),
            decreases self.fired.len() - i,
        {
            proof {
                broadcast use group_to_multiset_ensures;

                assert(self@.fired.subrange(0, i + 1) =~= self@.fired.subrange(0, i as int).push(
                    self@.fired[i as int],
                ));
            }
            if self.fired[i] == wanted {
                count += 1;
            }
            i += 1;
        }
        assert(self@.fired.subrange(0, i as int) =~= self@.fired);
        count
    }

    /// The changed flag and, for each rule id that fired, how often it fired.
    pub fn snapshot(&self) -> (snapshot: Snapshot)
        ensures
            snapshot.changed == self@.changed,
            ids_of(snapshot.counts@) == distinct_ids(self@.fired),
            forall|k: int|
                0 <= k < snapshot.counts.len() ==> (#[trigger] snapshot.counts[k]).count
                    == self@.counts().count(snapshot.counts[k].id@),
    {
        let mut lines: Vec<RuleCount> = Vec::new();
        let mut i: usize = 0;
        let ghost log = self@.fired;
        proof {
            Seq::<Seq<char>>::empty().to_multiset_ensures();
        }
        while i < self.fired.len()
            invariant
                i <= self.fired.len(),
                log == self@.fired,
                log.len() == self.fired.len(),
                forall|k: int| 0 <= k < self.fired.len() ==> log[k] == self.fired[k]@,
                ids_of(lines@) == distinct_ids(log.subrange(0, i as int)),
                forall|k: int|
                    0 <= k < lines.len() ==> (#[trigger] lines[k]).count == log.subrange(
                        0,
                        i as int,
                    ).to_multiset().count(lines[k].id@),
                forall|k: int| 0 <= k < lines.len() ==> (#[trigger] lines[k]).count <= i,
            decreases self.fired.len() - i,
        {
            let ghost seen = log.subrange(0, i as int);
            let ghost next = log.subrange(0, i + 1);
            proof {
                broadcast use group_to_multiset_ensures;

                assert(next.drop_last() =~= seen);
                assert(next =~= seen.push(log[i as int]));
                lemma_distinct_ids(seen);
            }
            let id = &self.fired[i];
            let mut j: usize = 0;
            let mut found = false;
            while j < lines.len()
                invariant_except_break
                    !found,
                    forall|k: int| 0 <= k < j ==> ids_of(lines@)[k] != id@,
                invariant
                    j <= lines.len(),
                ensures
                    found ==> j < lines.len() && lines[j as int].id@ == id@,
                    !found ==> forall|k: int| 0 <= k < lines.len() ==> ids_of(lines@)[k] != id@,
                decreases lines.len() - j,
            {
                if lines[j].id == *id {
                    found = true;
                    break;
                }
                j += 1;
            }
            let ghost before = lines@;
            if found {
                assert(ids_of(before)[j as int] == id@);
                let line = &mut lines[j];
                line.count = line.count + 1;
                proof {
                    assert forall|k: int| 0 <= k < lines.len() implies (#[trigger] lines[k]).count
                        == next.to_multiset().count(lines[k].id@) by {
                        if k != j {
                            assert(ids_of(before)[k] == before[k].id@);
                        }
                    }
                }
            } else {
                lines.push(RuleCount { id: id.clone(), count: 1 });
                proof {
                    assert forall|k: int| 0 <= k < lines.len() implies (#[trigger] lines[k]).count
                        == next.to_multiset().count(lines[k].id@) by {
                        if k < before.len() {
                            assert(ids_of(before)[k] == before[k].id@);
                        }
                    }
                }
            }
            i += 1;
        }
        assert(log.subrange(0, i as int) =~= log);
        Snapshot { changed: self.changed, counts: lines }
    }
}

} // verus!
