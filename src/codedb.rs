use vstd::prelude::*;

verus! {

/// What a snippet key holds.
pub enum Value {
    /// A function definition.
    Function(String),
    /// No writes are accepted.
    Locked,
    Deleted,
}

pub enum ValueView {
    Function(Seq<char>),
    Locked,
    Deleted,
}

impl View for Value {
    type V = ValueView;

    open spec fn view(&self) -> ValueView {
        match self {
            Value::Function(s) => ValueView::Function(s@),
            Value::Locked => ValueView::Locked,
            Value::Deleted => ValueView::Deleted,
        }
    }
}

impl Clone for Value {
    fn clone(&self) -> (r: Value)
        ensures
            r@ == self@,
    {
        match self {
            Value::Function(s) => Value::Function(s.clone()),
            Value::Locked => Value::Locked,
            Value::Deleted => Value::Deleted,
        }
    }
}

/// One record of the snippet log.
pub struct Entry {
    pub key: String,
    pub value: Value,
    pub modified_by: String,
    /// When the write was made, in milliseconds since the Unix epoch.
    pub date: i64,
}

pub struct EntryView {
    pub key: Seq<char>,
    pub value: ValueView,
    pub modified_by: Seq<char>,
    pub date: i64,
}

impl View for Entry {
    type V = EntryView;

    open spec fn view(&self) -> EntryView {
        EntryView {
            key: self.key@,
            value: self.value@,
            modified_by: self.modified_by@,
            date: self.date,
        }
    }
}

pub open spec fn entry_views(log: Seq<Entry>) -> Seq<EntryView> {
    log.map_values(|e: Entry| e@)
}

/// The cache that replaying `log` in order builds: the last write to each key wins.
pub open spec fn replay_log(log: Seq<EntryView>) -> Map<Seq<char>, ValueView>
    decreases log.len(),
{
    if log.len() == 0 {
        Map::empty()
    } else {
        replay_log(log.drop_last()).insert(log.last().key, log.last().value)
    }
}

/// Why a write was refused.
#[derive(PartialEq, Eq, Structural, Clone, Copy, Debug)]
pub enum InsertError {
    /// The key is locked.
    Locked,
}

/// Whether the cache `m` refuses writes to `key`.
pub open spec fn is_locked(m: Map<Seq<char>, ValueView>, key: Seq<char>) -> bool {
    m.contains_key(key) && m[key] == ValueView::Locked
}

/// Where `key` is among `keys`.
pub open spec fn key_index(keys: Seq<String>, key: Seq<char>) -> Option<int> {
    if exists|i: int| 0 <= i < keys.len() && keys[i]@ == key {
        Some(choose|i: int| 0 <= i < keys.len() && keys[i]@ == key)
    } else {
        None
    }
}

/// The in-memory cache of the snippet log: the latest value of each key.
pub struct CodeDB {
    keys: Vec<String>,
    values: Vec<Value>,
}

impl View for CodeDB {
    type V = Map<Seq<char>, ValueView>;

    closed spec fn view(&self) -> Map<Seq<char>, ValueView> {
        Map::new(
            |k: Seq<char>| key_index(self.keys@, k) is Some,
            |k: Seq<char>| self.values@[key_index(self.keys@, k)->0]@,
        )
    }
}

proof fn lemma_key_index_at(keys: Seq<String>, key: Seq<char>, i: int)
    requires
        0 <= i < keys.len(),
        keys[i]@ == key,
        forall|a: int, b: int| 0 <= a < b < keys.len() ==> (#[trigger] keys[a])@ != (#[trigger] keys[b])@,
    ensures
        key_index(keys, key) == Some(i),
{
    assert forall|m: int| 0 <= m < keys.len() && keys[m]@ == key implies m == i by {
        if m < i {
            assert(keys[m]@ != keys[i]@);
        } else if m > i {
            assert(keys[i]@ != keys[m]@);
        }
    }
}

impl CodeDB {
    /// One value per key, and no key twice.
    pub closed spec fn wf(&self) -> bool {
        &&& self.keys@.len() == self.values@.len()
        &&& forall|a: int, b: int|
            0 <= a < b < self.keys@.len() ==> (#[trigger] self.keys@[a])@ != (#[trigger] self.keys@[b])@
    }

    /// An empty cache.
    pub fn new() -> (r: CodeDB)
        ensures
            r.wf(),
            r@ == Map::<Seq<char>, ValueView>::empty(),
    {
        let r = CodeDB { keys: Vec::new(), values: Vec::new() };
        assert(r@ =~= Map::<Seq<char>, ValueView>::empty());
        r
    }

    /// Where `key` is.
    fn find(&self, key: &str) -> (r: Option<usize>)
        requires
            self.wf(),
        ensures
            r matches Some(i) ==> i < self.keys@.len() && key_index(self.keys@, key@) == Some(
                i as int,
            ),
            r is None ==> key_index(self.keys@, key@) is None,
    {
        let wanted = key.to_owned();
        let n = self.keys.len();
        let mut i: usize = 0;
        while i < n
            invariant
                wanted@ == key@,
                self.wf(),
                n == self.keys@.len(),
                i <= n,
                forall|m: int| 0 <= m < i ==> self.keys@[m]@ != key@,
            decreases n - i,
        {
            if self.keys[i] == wanted {
                proof {
                    lemma_key_index_at(self.keys@, key@, i as int);
                }
                return Some(i);
            }
            i = i + 1;
        }
        None
    }

    /// Records `value` as the latest value of `key`.
    fn put(&mut self, key: &String, value: Value)
        requires
            old(self).wf(),
        ensures
            final(self).wf(),
            final(self)@ == old(self)@.insert(key@, value@),
    {
        let ghost k = key@;
        match self.find(key.as_str()) {
            Some(i) => {
                let ghost old_self = *self;
                self.values.set(i, value);
                proof {
                    assert forall|c: Seq<char>| #[trigger] key_index(self.keys@, c) == key_index(
                        old_self.keys@,
                        c,
                    ) by {}
                    assert(self@ =~= old_self@.insert(k, value@));
                }
            },
            None => {
                let ghost old_self = *self;
                let n = self.keys.len();
                self.keys.push(key.clone());
                self.values.push(value);
                proof {
                    let ks = self.keys@;
                    assert(ks[n as int]@ == k);
                    assert forall|a: int, b: int| 0 <= a < b < ks.len() implies (#[trigger] ks[a])@
                        != (#[trigger] ks[b])@ by {
                        if b == n {
                            assert(ks[a] == old_self.keys@[a]);
                        } else {
                            assert(ks[a] == old_self.keys@[a]);
                            assert(ks[b] == old_self.keys@[b]);
                        }
                    }
                    lemma_key_index_at(ks, k, n as int);
                    assert forall|c: Seq<char>| c != k implies #[trigger] key_index(ks, c)
                        == key_index(old_self.keys@, c) by {
                        if key_index(old_self.keys@, c) is Some {
                            let i = key_index(old_self.keys@, c)->0;
                            assert(ks[i] == old_self.keys@[i]);
                            lemma_key_index_at(ks, c, i);
                        } else {
                            if exists|m: int| 0 <= m < ks.len() && ks[m]@ == c {
                                let m = choose|m: int| 0 <= m < ks.len() && ks[m]@ == c;
                                assert(ks[m] == old_self.keys@[m]);
                            }
                        }
                    }
                    assert forall|c: Seq<char>| c != k && #[trigger] key_index(ks, c) is Some implies
                        self.values@[key_index(ks, c)->0] == old_self.values@[key_index(ks, c)->0] by {}
                    assert(self@ =~= old_self@.insert(k, value@));
                }
            },
        }
    }

    /// Rebuilds the cache by replaying the records of a log in order.
    pub fn replay(log: &Vec<Entry>) -> (r: CodeDB)
        ensures
            r.wf(),
            r@ == replay_log(entry_views(log@)),
    {
        let mut db = CodeDB::new();
        let mut i: usize = 0;
        while i < log.len()
            invariant
                i <= log@.len(),
                db.wf(),
                db@ == replay_log(entry_views(log@.subrange(0, i as int))),
            decreases log@.len() - i,
        {
            let e = &log[i];
            db.put(&e.key, e.value.clone());
            proof {
                let s = entry_views(log@.subrange(0, i + 1));
                assert(s.drop_last() =~= entry_views(log@.subrange(0, i as int)));
                assert(s.last() == e@);
            }
            i = i + 1;
        }
        assert(log@.subrange(0, log@.len() as int) =~= log@);
        db
    }

    /// The function body currently stored under `key`: none where the key is absent or
    /// holds no function.
    pub fn lookup_fn(&self, key: &str) -> (r: Option<&str>)
        requires
            self.wf(),
        ensures
            r matches Some(f) ==> self@.contains_key(key@) && self@[key@] == ValueView::Function(
                f@,
            ),
            r is None ==> !(self@.contains_key(key@) && self@[key@] is Function),
    {
        match self.find(key) {
            Some(i) => match &self.values[i] {
                Value::Function(f) => Some(f.as_str()),
                _ => None,
            },
            None => None,
        }
    }

    /// The log record that writing the function body `fun` under `key` appends; refused
    /// where the key is locked. The cache takes the write only through `commit`, once the
    /// record is durably in the log.
    pub fn prepare_insert(&self, key: &str, fun: &str, modified_by: &str, date: i64) -> (r: Result<
        Entry,
        InsertError,
    >)
        requires
            self.wf(),
        ensures
            r is Err <==> is_locked(self@, key@),
            r matches Err(e) ==> e == InsertError::Locked,
            r matches Ok(e) ==> e@ == (EntryView {
                key: key@,
                value: ValueView::Function(fun@),
                modified_by: modified_by@,
                date,
            }),
    {
        match self.find(key) {
            Some(i) => match &self.values[i] {
                Value::Locked => {
                    return Err(InsertError::Locked);
                },
                _ => {},
            },
            None => {},
        }
        Ok(
            Entry {
                key: key.to_owned(),
                value: Value::Function(fun.to_owned()),
                modified_by: modified_by.to_owned(),
                date,
            },
        )
    }

    /// Takes a record that is now in the log into the cache.
    pub fn commit(&mut self, entry: &Entry)
        requires
            old(self).wf(),
        ensures
            final(self).wf(),
            final(self)@ == old(self)@.insert(entry.key@, entry.value@),
    {
        self.put(&entry.key, entry.value.clone());
    }
}

/// Replaying a log with one more record at its end gives the cache that committing that
/// record to the cache of the shorter log gives: a store reopened from its file holds
/// every write that was committed to it.
pub proof fn lemma_replay_push(log: Seq<Entry>, e: Entry)
    ensures
        replay_log(entry_views(log.push(e))) == replay_log(entry_views(log)).insert(e.key@, e.value@),
{
    let s = entry_views(log.push(e));
    assert(s.drop_last() =~= entry_views(log));
    assert(s.last() == e@);
}

/// A function body written under a key and committed is what a store reopened from the
/// log finds under that key.
pub proof fn lemma_reopen_finds_insert(log: Seq<Entry>, e: Entry, fun: Seq<char>)
    requires
        e@.value == ValueView::Function(fun),
    ensures
        replay_log(entry_views(log.push(e))).contains_key(e.key@),
        replay_log(entry_views(log.push(e)))[e.key@] == ValueView::Function(fun),
{
    lemma_replay_push(log, e);
}

/// A key whose last record in the log locks it is locked in a store reopened from that
/// log, so `prepare_insert` refuses writes to it and nothing is appended or cached.
pub proof fn lemma_reopen_keeps_lock(log: Seq<Entry>, e: Entry)
    requires
        e@.value == ValueView::Locked,
    ensures
        is_locked(replay_log(entry_views(log.push(e))), e.key@),
{
    lemma_replay_push(log, e);
}

} // verus!
