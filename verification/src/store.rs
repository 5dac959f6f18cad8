//! Local history: settings, transcription jobs and meeting artefacts, held as three tables
//! keyed as in the on-disk database (settings by key, jobs by id, artefacts by job and kind).
use vstd::prelude::*;

use crate::text::str_eq;

verus! {

/// A transcription job as kept in the history.
pub struct StoredJob {
    pub id: String,
    pub name: String,
    pub path: String,
    pub diarize: bool,
    /// "done" | "error"
    pub status: String,
    pub text: String,
    pub error: String,
    pub created_at: i64,
    /// Speaker names, as JSON `{number: name}`.
    pub speakers: String,
    /// Length of the recording in milliseconds, where known.
    pub duration_ms: Option<u64>,
}

/// Mathematical model of a job.
pub struct JobV {
    pub id: Seq<char>,
    pub name: Seq<char>,
    pub path: Seq<char>,
    pub diarize: bool,
    pub status: Seq<char>,
    pub text: Seq<char>,
    pub error: Seq<char>,
    pub created_at: int,
    pub speakers: Seq<char>,
    pub duration_ms: Option<u64>,
}

impl StoredJob {
    pub open spec fn view(&self) -> JobV {
        JobV {
            id: self.id@,
            name: self.name@,
            path: self.path@,
            diarize: self.diarize,
            status: self.status@,
            text: self.text@,
            error: self.error@,
            created_at: self.created_at as int,
            speakers: self.speakers@,
            duration_ms: self.duration_ms,
        }
    }

    /// A copy of the job.
    pub fn copy(&self) -> (r: StoredJob)
        ensures
            r@ == self@,
    {
        StoredJob {
            id: self.id.clone(),
            name: self.name.clone(),
            path: self.path.clone(),
            diarize: self.diarize,
            status: self.status.clone(),
            text: self.text.clone(),
            error: self.error.clone(),
            created_at: self.created_at,
            speakers: self.speakers.clone(),
            duration_ms: self.duration_ms,
        }
    }
}

/// A meeting artefact of a job ("summary" | "business" | "interview" | "todo", or the
/// internal "digest" cache of a long recording).
pub struct JobResult {
    pub job_id: String,
    pub kind: String,
    pub text: String,
    pub model: String,
    pub created_at: i64,
}

/// Mathematical model of an artefact.
pub struct ResultV {
    pub job_id: Seq<char>,
    pub kind: Seq<char>,
    pub text: Seq<char>,
    pub model: Seq<char>,
    pub created_at: int,
}

impl JobResult {
    pub open spec fn view(&self) -> ResultV {
        ResultV {
            job_id: self.job_id@,
            kind: self.kind@,
            text: self.text@,
            model: self.model@,
            created_at: self.created_at as int,
        }
    }

    /// The table key of the artefact: its job and its kind.
    pub open spec fn key(&self) -> (Seq<char>, Seq<char>) {
        (self.job_id@, self.kind@)
    }

    /// A copy of the artefact.
    pub fn copy(&self) -> (r: JobResult)
        ensures
            r@ == self@,
    {
        JobResult {
            job_id: self.job_id.clone(),
            kind: self.kind.clone(),
            text: self.text.clone(),
            model: self.model.clone(),
            created_at: self.created_at,
        }
    }
}

/// A finished dictation as kept in its own history.
pub struct StoredDictation {
    pub id: String,
    pub text: String,
    pub created_at: i64,
    /// Length of the recording in milliseconds, where known.
    pub duration_ms: Option<u64>,
    /// The recognition model that heard it.
    pub model: String,
    pub lang: String,
}

/// Mathematical model of a dictation.
pub struct DictV {
    pub id: Seq<char>,
    pub text: Seq<char>,
    pub created_at: int,
    pub duration_ms: Option<u64>,
    pub model: Seq<char>,
    pub lang: Seq<char>,
}

impl StoredDictation {
    pub open spec fn view(&self) -> DictV {
        DictV {
            id: self.id@,
            text: self.text@,
            created_at: self.created_at as int,
            duration_ms: self.duration_ms,
            model: self.model@,
            lang: self.lang@,
        }
    }

    /// A copy of the dictation.
    pub fn copy(&self) -> (r: StoredDictation)
        ensures
            r@ == self@,
    {
        StoredDictation {
            id: self.id.clone(),
            text: self.text.clone(),
            created_at: self.created_at,
            duration_ms: self.duration_ms,
            model: self.model.clone(),
            lang: self.lang.clone(),
        }
    }
}

/// The kind of the internal map-reduce cache, never shown as an artefact.
pub open spec fn digest_kind() -> Seq<char> {
    seq!['d', 'i', 'g', 'e', 's', 't']
}

} // verus!

verus! {

/// `p` lists each of `0..n` exactly once.
pub open spec fn is_perm(p: Seq<usize>, n: int) -> bool {
    &&& p.len() == n
    &&& forall|a: int, b: int| 0 <= a < b < n ==> p[a] != p[b]
    &&& forall|a: int| 0 <= a < n ==> p[a] < n
    &&& forall|x: usize| x < n ==> #[trigger] p.contains(x)
}

/// Whether key `a` may stand before key `b` in the chosen direction.
pub open spec fn in_order(a: i64, b: i64, desc: bool) -> bool {
    if desc {
        a >= b
    } else {
        a <= b
    }
}

/// `p` orders the keys in the chosen direction; equal keys keep their input order.
pub open spec fn sorted_by(keys: Seq<i64>, p: Seq<usize>, desc: bool) -> bool {
    &&& forall|a: int, b: int|
        0 <= a < b < p.len() ==> in_order(#[trigger] keys[p[a] as int], #[trigger] keys[p[b] as int], desc)
    &&& forall|a: int, b: int|
        0 <= a < b < p.len() && keys[p[a] as int] == keys[p[b] as int] ==> p[a] < p[b]
}

fn strictly_after(a: i64, b: i64, desc: bool) -> (r: bool)
    ensures
        r == !in_order(a, b, desc),
{
    if desc {
        a < b
    } else {
        a > b
    }
}

/// Positions `0..keys.len()` ordered by key (descending when `desc`), ties in input
/// order: the row order of `ORDER BY key [DESC]`.
pub fn order_by(keys: &Vec<i64>, desc: bool) -> (p: Vec<usize>)
    ensures
        is_perm(p@, keys@.len() as int),
        sorted_by(keys@, p@, desc),
{
    let mut p: Vec<usize> = Vec::new();
    let ghost mut pos: Seq<int> = Seq::empty();
    let mut i: usize = 0;
    while i < keys.len()
        invariant
            i <= keys.len(),
            p.len() == i,
            forall|a: int, b: int| 0 <= a < b < i ==> p@[a] != p@[b],
            forall|a: int| 0 <= a < i ==> p@[a] < i,
            pos.len() == i,
            forall|x: int| 0 <= x < i ==> 0 <= #[trigger] pos[x] < i && p@[pos[x]] == x,
            sorted_by(keys@, p@, desc),
        decreases keys.len() - i,
    {
        let k = keys[i];
        let mut j: usize = 0;
        while j < p.len() && !strictly_after(keys[p[j]], k, desc)
            invariant
                j <= p.len(),
                p.len() == i,
                i < keys.len(),
                k == keys@[i as int],
                forall|a: int| 0 <= a < i ==> p@[a] < i,
                forall|a: int| 0 <= a < j ==> in_order(#[trigger] keys@[p@[a] as int], k, desc),
            decreases p.len() - j,
        {
            j = j + 1;
        }
        let ghost old_p = p@;
        let ghost jj = j as int;
        // everything from `j` on stands strictly after `k`
        assert forall|a: int| jj <= a < i implies !in_order(
            #[trigger] keys@[old_p[a] as int],
            k,
            desc,
        ) by {
            assert(!in_order(keys@[old_p[jj] as int], k, desc));
            if a > jj {
                assert(in_order(keys@[old_p[jj] as int], keys@[old_p[a] as int], desc));
            }
        }
        p.insert(j, i);
        proof {
            pos = pos.map_values(|q: int| if q >= jj { q + 1 } else { q }).push(jj);
            assert forall|x: int| 0 <= x < i + 1 implies 0 <= #[trigger] pos[x] < i + 1 && p@[pos[x]]
                == x by {
            }
            assert forall|a: int, b: int|
                0 <= a < b < p.len() implies in_order(
                #[trigger] keys@[p@[a] as int],
                #[trigger] keys@[p@[b] as int],
                desc,
            ) by {
                if b < jj {
                } else if b == jj {
                } else if a < jj {
                    assert(p@[b] == old_p[b - 1]);
                    assert(in_order(keys@[old_p[a] as int], keys@[old_p[b - 1] as int], desc));
                } else if a == jj {
                    assert(p@[b] == old_p[b - 1]);
                    assert(!in_order(keys@[old_p[b - 1] as int], k, desc));
                } else {
                    assert(p@[b] == old_p[b - 1]);
                    assert(p@[a] == old_p[a - 1]);
                }
            }
            assert forall|a: int, b: int|
                0 <= a < b < p.len() && keys@[p@[a] as int] == keys@[p@[b] as int] implies p@[a]
                < p@[b] by {
                if b < jj {
                } else if b == jj {
                    assert(p@[a] == old_p[a]);
                } else if a < jj {
                    assert(p@[b] == old_p[b - 1]);
                } else if a == jj {
                    assert(p@[b] == old_p[b - 1]);
                    assert(!in_order(keys@[old_p[b - 1] as int], k, desc));
                } else {
                    assert(p@[b] == old_p[b - 1]);
                    assert(p@[a] == old_p[a - 1]);
                }
            }
        }
        i = i + 1;
    }
    assert forall|x: usize| x < keys@.len() implies #[trigger] p@.contains(x) by {
        assert(p@[pos[x as int]] == x);
    }
    p
}

} // verus!

verus! {

/// Rows with pairwise distinct keys.
pub open spec fn unique_by<T, K>(s: Seq<T>, key: spec_fn(T) -> K) -> bool {
    forall|i: int, j: int| 0 <= i < j < s.len() ==> key(#[trigger] s[i]) != key(#[trigger] s[j])
}

/// Some row has key `k`.
pub open spec fn has_key<T, K>(s: Seq<T>, key: spec_fn(T) -> K, k: K) -> bool {
    exists|i: int| 0 <= i < s.len() && key(#[trigger] s[i]) == k
}

/// The table that the rows make: each key mapped to the value of its row.
pub open spec fn table<T, K, V>(s: Seq<T>, key: spec_fn(T) -> K, val: spec_fn(T) -> V) -> Map<K, V> {
    Map::new(
        |k: K| has_key(s, key, k),
        |k: K| val(s[choose|i: int| 0 <= i < s.len() && key(#[trigger] s[i]) == k]),
    )
}

proof fn lemma_table_at<T, K, V>(s: Seq<T>, key: spec_fn(T) -> K, val: spec_fn(T) -> V, i: int)
    requires
        unique_by(s, key),
        0 <= i < s.len(),
    ensures
        table(s, key, val).contains_key(key(s[i])),
        table(s, key, val)[key(s[i])] == val(s[i]),
{
    let k = key(s[i]);
    assert(has_key(s, key, k));
    let j = choose|j: int| 0 <= j < s.len() && key(#[trigger] s[j]) == k;
    if i < j {
        assert(key(s[i]) != key(s[j]));
    } else if j < i {
        assert(key(s[j]) != key(s[i]));
    }
}

/// A map is the table of the rows when each row's entry is in it and it holds nothing else.
proof fn lemma_table_is<T, K, V>(s: Seq<T>, key: spec_fn(T) -> K, val: spec_fn(T) -> V, m: Map<K, V>)
    requires
        unique_by(s, key),
        forall|i: int| 0 <= i < s.len() ==> #[trigger] m.contains_key(key(s[i])) && m[key(s[i])] == val(s[i]),
        forall|k: K| #[trigger] m.contains_key(k) ==> has_key(s, key, k),
    ensures
        table(s, key, val) == m,
{
    let t = table(s, key, val);
    assert forall|k: K| #[trigger] t.contains_key(k) == m.contains_key(k) by {
        if has_key(s, key, k) {
            let i = choose|i: int| 0 <= i < s.len() && key(#[trigger] s[i]) == k;
            assert(m.contains_key(key(s[i])));
        }
    }
    assert forall|k: K| #[trigger] t.contains_key(k) implies t[k] == m[k] by {
        let i = choose|i: int| 0 <= i < s.len() && key(#[trigger] s[i]) == k;
        lemma_table_at(s, key, val, i);
        assert(m.contains_key(key(s[i])));
    }
    assert(t =~= m);
}

proof fn lemma_table_push<T, K, V>(s: Seq<T>, key: spec_fn(T) -> K, val: spec_fn(T) -> V, x: T)
    requires
        unique_by(s, key),
        !has_key(s, key, key(x)),
    ensures
        unique_by(s.push(x), key),
        table(s.push(x), key, val) == table(s, key, val).insert(key(x), val(x)),
{
    let s2 = s.push(x);
    assert forall|i: int, j: int| 0 <= i < j < s2.len() implies key(#[trigger] s2[i]) != key(
        #[trigger] s2[j],
    ) by {
        if j == s.len() {
            assert(key(s[i]) == key(s2[i]));
        } else {
            assert(s2[i] == s[i] && s2[j] == s[j]);
        }
    }
    let m = table(s, key, val).insert(key(x), val(x));
    assert forall|i: int| 0 <= i < s2.len() implies #[trigger] m.contains_key(key(s2[i])) && m[key(
        s2[i],
    )] == val(s2[i]) by {
        if i < s.len() {
            assert(s2[i] == s[i]);
            lemma_table_at(s, key, val, i);
            assert(key(s[i]) != key(x));
        }
    }
    assert forall|k: K| #[trigger] m.contains_key(k) implies has_key(s2, key, k) by {
        if k == key(x) {
            assert(key(s2[s.len() as int]) == k);
        } else {
            let i = choose|i: int| 0 <= i < s.len() && key(#[trigger] s[i]) == k;
            assert(s2[i] == s[i]);
        }
    }
    lemma_table_is(s2, key, val, m);
}

proof fn lemma_table_update<T, K, V>(
    s: Seq<T>,
    key: spec_fn(T) -> K,
    val: spec_fn(T) -> V,
    i: int,
    x: T,
)
    requires
        unique_by(s, key),
        0 <= i < s.len(),
        key(x) == key(s[i]),
    ensures
        unique_by(s.update(i, x), key),
        table(s.update(i, x), key, val) == table(s, key, val).insert(key(x), val(x)),
{
    let s2 = s.update(i, x);
    assert forall|a: int, b: int| 0 <= a < b < s2.len() implies key(#[trigger] s2[a]) != key(
        #[trigger] s2[b],
    ) by {
        assert(key(s2[a]) == key(s[a]) && key(s2[b]) == key(s[b]));
    }
    let m = table(s, key, val).insert(key(x), val(x));
    assert forall|j: int| 0 <= j < s2.len() implies #[trigger] m.contains_key(key(s2[j])) && m[key(
        s2[j],
    )] == val(s2[j]) by {
        if j != i {
            lemma_table_at(s, key, val, j);
            assert(key(s[j]) != key(s[i]));
        }
    }
    assert forall|k: K| #[trigger] m.contains_key(k) implies has_key(s2, key, k) by {
        if k == key(x) {
            assert(key(s2[i]) == k);
        } else {
            let j = choose|j: int| 0 <= j < s.len() && key(#[trigger] s[j]) == k;
            assert(s2[j] == s[j]);
        }
    }
    lemma_table_is(s2, key, val, m);
}

proof fn lemma_table_remove<T, K, V>(s: Seq<T>, key: spec_fn(T) -> K, val: spec_fn(T) -> V, i: int)
    requires
        unique_by(s, key),
        0 <= i < s.len(),
    ensures
        unique_by(s.remove(i), key),
        table(s.remove(i), key, val) == table(s, key, val).remove(key(s[i])),
{
    let s2 = s.remove(i);
    assert forall|a: int, b: int| 0 <= a < b < s2.len() implies key(#[trigger] s2[a]) != key(
        #[trigger] s2[b],
    ) by {
        let a0 = if a < i { a } else { a + 1 };
        let b0 = if b < i { b } else { b + 1 };
        assert(s2[a] == s[a0] && s2[b] == s[b0]);
        assert(key(s[a0]) != key(s[b0]));
    }
    let m = table(s, key, val).remove(key(s[i]));
    assert forall|j: int| 0 <= j < s2.len() implies #[trigger] m.contains_key(key(s2[j])) && m[key(
        s2[j],
    )] == val(s2[j]) by {
        let j0 = if j < i { j } else { j + 1 };
        assert(s2[j] == s[j0]);
        lemma_table_at(s, key, val, j0);
        if j0 < i {
            assert(key(s[j0]) != key(s[i]));
        } else {
            assert(key(s[i]) != key(s[j0]));
        }
    }
    assert forall|k: K| #[trigger] m.contains_key(k) implies has_key(s2, key, k) by {
        let j = choose|j: int| 0 <= j < s.len() && key(#[trigger] s[j]) == k;
        assert(j != i);
        if j < i {
            assert(s2[j] == s[j]);
        } else {
            assert(s2[j - 1] == s[j]);
        }
    }
    lemma_table_is(s2, key, val, m);
}

proof fn lemma_table_len<T, K, V>(s: Seq<T>, key: spec_fn(T) -> K, val: spec_fn(T) -> V)
    requires
        unique_by(s, key),
    ensures
        table(s, key, val).len() == s.len(),
        table(s, key, val).dom().finite(),
    decreases s.len(),
{
    if s.len() == 0 {
        lemma_table_empty::<T, K, V>(key, val);
        assert(table(s, key, val).dom() =~= Set::<K>::empty());
    } else {
        let s0 = s.drop_last();
        assert(s0.push(s.last()) =~= s);
        assert(unique_by(s0, key)) by {
            assert forall|i: int, j: int| 0 <= i < j < s0.len() implies key(#[trigger] s0[i]) != key(
                #[trigger] s0[j],
            ) by {
                assert(s0[i] == s[i] && s0[j] == s[j]);
            }
        }
        lemma_table_len(s0, key, val);
        assert(!has_key(s0, key, key(s.last()))) by {
            if has_key(s0, key, key(s.last())) {
                let i = choose|i: int| 0 <= i < s0.len() && key(#[trigger] s0[i]) == key(s.last());
                assert(s0[i] == s[i]);
                assert(key(s[i]) != key(s[s.len() - 1]));
            }
        }
        lemma_table_push(s0, key, val, s.last());
        let m0 = table(s0, key, val);
        assert(!m0.contains_key(key(s.last())));
        assert(m0.insert(key(s.last()), val(s.last())).dom() =~= m0.dom().insert(key(s.last())));
        assert(table(s, key, val) == m0.insert(key(s.last()), val(s.last())));
    }
}

proof fn lemma_table_empty<T, K, V>(key: spec_fn(T) -> K, val: spec_fn(T) -> V)
    ensures
        unique_by(Seq::<T>::empty(), key),
        table(Seq::<T>::empty(), key, val) == Map::<K, V>::empty(),
{
    assert(table(Seq::<T>::empty(), key, val) =~= Map::<K, V>::empty());
}

} // verus!

verus! {

pub open spec fn setting_key() -> spec_fn((String, String)) -> Seq<char> {
    |r: (String, String)| r.0@
}

pub open spec fn setting_val() -> spec_fn((String, String)) -> Seq<char> {
    |r: (String, String)| r.1@
}

pub open spec fn job_key() -> spec_fn(StoredJob) -> Seq<char> {
    |j: StoredJob| j.id@
}

pub open spec fn job_val() -> spec_fn(StoredJob) -> JobV {
    |j: StoredJob| j@
}

pub open spec fn dict_key() -> spec_fn(StoredDictation) -> Seq<char> {
    |d: StoredDictation| d.id@
}

pub open spec fn dict_val() -> spec_fn(StoredDictation) -> DictV {
    |d: StoredDictation| d@
}

pub open spec fn result_key() -> spec_fn(JobResult) -> (Seq<char>, Seq<char>) {
    |r: JobResult| r.key()
}

pub open spec fn result_val() -> spec_fn(JobResult) -> ResultV {
    |r: JobResult| r@
}

/// The artefact keys that belong to job `id`.
pub open spec fn keys_of_job(id: Seq<char>) -> Set<(Seq<char>, Seq<char>)> {
    Set::new(|k: (Seq<char>, Seq<char>)| k.0 == id)
}

/// `v` lists the artefacts of job `job_id` that are shown to the user (every kind but the
/// digest), each once, oldest first.
pub open spec fn shown_results(
    m: Map<(Seq<char>, Seq<char>), ResultV>,
    job_id: Seq<char>,
    v: Seq<JobResult>,
) -> bool {
    &&& forall|t: int| 0 <= t < v.len() ==> {
        let x = #[trigger] v[t];
        &&& x.job_id@ == job_id
        &&& x.kind@ != digest_kind()
        &&& m.contains_key(x.key())
        &&& m[x.key()] == x@
    }
    &&& forall|k: (Seq<char>, Seq<char>)| #[trigger] m.contains_key(k) && k.0 == job_id && k.1
        != digest_kind() ==> exists|t: int| 0 <= t < v.len() && (#[trigger] v[t]).key() == k
    &&& forall|a: int, b: int| 0 <= a < b < v.len() ==> (#[trigger] v[a]).key() != (#[trigger] v[b]).key()
        && v[a].created_at <= v[b].created_at
}

/// Model of the history: the four tables.
pub struct StoreV {
    pub settings: Map<Seq<char>, Seq<char>>,
    pub jobs: Map<Seq<char>, JobV>,
    pub results: Map<(Seq<char>, Seq<char>), ResultV>,
    pub dictations: Map<Seq<char>, DictV>,
}

/// The history: settings, jobs and their artefacts, and dictations.
pub struct Store {
    settings: Vec<(String, String)>,
    jobs: Vec<StoredJob>,
    results: Vec<JobResult>,
    dictations: Vec<StoredDictation>,
}

impl Store {
    pub closed spec fn view(&self) -> StoreV {
        StoreV {
            settings: table(self.settings@, setting_key(), setting_val()),
            jobs: table(self.jobs@, job_key(), job_val()),
            results: table(self.results@, result_key(), result_val()),
            dictations: table(self.dictations@, dict_key(), dict_val()),
        }
    }

    /// Each table holds at most one row per key.
    pub closed spec fn wf(&self) -> bool {
        &&& unique_by(self.settings@, setting_key())
        &&& unique_by(self.jobs@, job_key())
        &&& unique_by(self.results@, result_key())
        &&& unique_by(self.dictations@, dict_key())
    }

    /// An empty history.
    pub fn new() -> (s: Store)
        ensures
            s.wf(),
            s@.settings == Map::<Seq<char>, Seq<char>>::empty(),
            s@.jobs == Map::<Seq<char>, JobV>::empty(),
            s@.results == Map::<(Seq<char>, Seq<char>), ResultV>::empty(),
            s@.dictations == Map::<Seq<char>, DictV>::empty(),
    {
        let s = Store { settings: Vec::new(), jobs: Vec::new(), results: Vec::new(), dictations: Vec::new() };
        proof {
            lemma_table_empty(setting_key(), setting_val());
            lemma_table_empty(job_key(), job_val());
            lemma_table_empty(result_key(), result_val());
            lemma_table_empty(dict_key(), dict_val());
        }
        s
    }

    fn find_setting(&self, key: &str) -> (r: Option<usize>)
        ensures
            match r {
                Some(i) => i < self.settings@.len() && self.settings@[i as int].0@ == key@,
                None => !has_key(self.settings@, setting_key(), key@),
            },
    {
        let mut i: usize = 0;
        while i < self.settings.len()
            invariant
                i <= self.settings@.len(),
                forall|j: int| 0 <= j < i ==> (#[trigger] self.settings@[j]).0@ != key@,
            decreases self.settings@.len() - i,
        {
            if str_eq(self.settings[i].0.as_str(), key) {
                return Some(i);
            }
            i = i + 1;
        }
        None
    }

    /// The stored value of a setting.
    pub fn get_setting(&self, key: &str) -> (r: Option<String>)
        requires
            self.wf(),
        ensures
            r is Some <==> self@.settings.contains_key(key@),
            r is Some ==> r->0@ == self@.settings[key@],
    {
        match self.find_setting(key) {
            Some(i) => {
                proof { lemma_table_at(self.settings@, setting_key(), setting_val(), i as int); }
                Some(self.settings[i].1.clone())
            },
            None => None,
        }
    }

    /// Stores a setting, replacing the previous value of the key.
    pub fn set_setting(&mut self, key: &str, value: &str) -> (r: Result<(), String>)
        requires
            old(self).wf(),
        ensures
            final(self).wf(),
            r is Ok,
            final(self)@.settings == old(self)@.settings.insert(key@, value@),
            final(self)@.jobs == old(self)@.jobs,
            final(self)@.results == old(self)@.results,
            final(self)@.dictations == old(self)@.dictations,
    {
        let row = (key.to_owned(), value.to_owned());
        match self.find_setting(key) {
            Some(i) => {
                proof {
                    lemma_table_update(self.settings@, setting_key(), setting_val(), i as int, row);
                }
                self.settings[i] = row;
            },
            None => {
                proof { lemma_table_push(self.settings@, setting_key(), setting_val(), row); }
                self.settings.push(row);
            },
        }
        Ok(())
    }

    fn find_job(&self, id: &str) -> (r: Option<usize>)
        ensures
            match r {
                Some(i) => i < self.jobs@.len() && self.jobs@[i as int].id@ == id@,
                None => !has_key(self.jobs@, job_key(), id@),
            },
    {
        let mut i: usize = 0;
        while i < self.jobs.len()
            invariant
                i <= self.jobs@.len(),
                forall|j: int| 0 <= j < i ==> (#[trigger] self.jobs@[j]).id@ != id@,
            decreases self.jobs@.len() - i,
        {
            if str_eq(self.jobs[i].id.as_str(), id) {
                return Some(i);
            }
            i = i + 1;
        }
        None
    }

    /// Stores a job, replacing the job with the same id.
    pub fn save(&mut self, j: &StoredJob) -> (r: Result<(), String>)
        requires
            old(self).wf(),
        ensures
            final(self).wf(),
            r is Ok,
            final(self)@.jobs == old(self)@.jobs.insert(j.id@, j@),
            final(self)@.settings == old(self)@.settings,
            final(self)@.results == old(self)@.results,
            final(self)@.dictations == old(self)@.dictations,
    {
        let row = j.copy();
        match self.find_job(j.id.as_str()) {
            Some(i) => {
                proof { lemma_table_update(self.jobs@, job_key(), job_val(), i as int, row); }
                self.jobs[i] = row;
            },
            None => {
                proof { lemma_table_push(self.jobs@, job_key(), job_val(), row); }
                self.jobs.push(row);
            },
        }
        Ok(())
    }

    /// The job with the given id.
    pub fn get(&self, id: &str) -> (r: Option<StoredJob>)
        requires
            self.wf(),
        ensures
            r is Some <==> self@.jobs.contains_key(id@),
            r is Some ==> r->0@ == self@.jobs[id@],
    {
        match self.find_job(id) {
            Some(i) => {
                proof { lemma_table_at(self.jobs@, job_key(), job_val(), i as int); }
                Some(self.jobs[i].copy())
            },
            None => None,
        }
    }

    /// All jobs, newest first (`ORDER BY created_at DESC`).
    pub fn list(&self) -> (r: Result<Vec<StoredJob>, String>)
        requires
            self.wf(),
        ensures
            r is Ok,
            r->Ok_0@.len() == self@.jobs.len(),
            forall|t: int| 0 <= t < r->Ok_0@.len() ==> self@.jobs.contains_key(#[trigger] r->Ok_0@[t].id@)
                && self@.jobs[r->Ok_0@[t].id@] == r->Ok_0@[t]@,
            forall|k: Seq<char>| #[trigger] self@.jobs.contains_key(k) ==> exists|t: int|
                0 <= t < r->Ok_0@.len() && (#[trigger] r->Ok_0@[t]).id@ == k,
            forall|a: int, b: int| 0 <= a < b < r->Ok_0@.len() ==> (#[trigger] r->Ok_0@[a]).id@ != (
            #[trigger] r->Ok_0@[b]).id@ && r->Ok_0@[a].created_at >= r->Ok_0@[b].created_at,
    {
        let mut keys: Vec<i64> = Vec::new();
        let mut i: usize = 0;
        while i < self.jobs.len()
            invariant
                i <= self.jobs@.len(),
                keys@.len() == i,
                forall|j: int| 0 <= j < i ==> keys@[j] == (#[trigger] self.jobs@[j]).created_at,
            decreases self.jobs@.len() - i,
        {
            keys.push(self.jobs[i].created_at);
            i = i + 1;
        }
        let p = order_by(&keys, true);
        let mut out: Vec<StoredJob> = Vec::new();
        let mut t: usize = 0;
        while t < p.len()
            invariant
                t <= p@.len(),
                is_perm(p@, self.jobs@.len() as int),
                out@.len() == t,
                forall|u: int| 0 <= u < t ==> (#[trigger] out@[u])@ == self.jobs@[p@[u] as int]@,
            decreases p@.len() - t,
        {
            out.push(self.jobs[p[t]].copy());
            t = t + 1;
        }
        proof {
            let n = self.jobs@.len();
            assert(self.jobs@.len() == self@.jobs.len()) by {
                lemma_table_len(self.jobs@, job_key(), job_val());
            }
            assert forall|u: int| 0 <= u < out@.len() implies self@.jobs.contains_key(
                #[trigger] out@[u].id@,
            ) && self@.jobs[out@[u].id@] == out@[u]@ by {
                lemma_table_at(self.jobs@, job_key(), job_val(), p@[u] as int);
            }
            assert forall|k: Seq<char>| #[trigger] self@.jobs.contains_key(k) implies exists|u: int|
                0 <= u < out@.len() && (#[trigger] out@[u]).id@ == k by {
                let i = choose|i: int| 0 <= i < n && job_key()(#[trigger] self.jobs@[i]) == k;
                assert(p@.contains(i as usize));
                let u = choose|u: int| 0 <= u < p@.len() && p@[u] == i as usize;
                assert(out@[u].id@ == k);
            }
            assert forall|a: int, b: int| 0 <= a < b < out@.len() implies (#[trigger] out@[a]).id@ != (
            #[trigger] out@[b]).id@ && out@[a].created_at >= out@[b].created_at by {
                assert(p@[a] != p@[b]);
                if p@[a] < p@[b] {
                    assert(job_key()(self.jobs@[p@[a] as int]) != job_key()(self.jobs@[p@[b] as int]));
                } else {
                    assert(job_key()(self.jobs@[p@[b] as int]) != job_key()(self.jobs@[p@[a] as int]));
                }
                assert(in_order(keys@[p@[a] as int], keys@[p@[b] as int], true));
            }
        }
        Ok(out)
    }

    /// Deletes a job together with all of its artefacts.
    pub fn delete(&mut self, id: &str) -> (r: Result<(), String>)
        requires
            old(self).wf(),
        ensures
            final(self).wf(),
            r is Ok,
            final(self)@.jobs == old(self)@.jobs.remove(id@),
            final(self)@.results == old(self)@.results.remove_keys(keys_of_job(id@)),
            final(self)@.settings == old(self)@.settings,
            final(self)@.dictations == old(self)@.dictations,
    {
        let ghost orig = self.results@;
        let ghost bad = keys_of_job(id@);
        let mut j: usize = 0;
        while j < self.results.len()
            invariant
                j <= self.results@.len(),
                unique_by(self.results@, result_key()),
                table(self.results@, result_key(), result_val()).remove_keys(bad) == table(
                    orig,
                    result_key(),
                    result_val(),
                ).remove_keys(bad),
                forall|t: int| 0 <= t < j ==> (#[trigger] self.results@[t]).job_id@ != id@,
                bad == keys_of_job(id@),
                self.jobs@ == old(self).jobs@,
                self.settings@ == old(self).settings@,
                self.dictations@ == old(self).dictations@,
                unique_by(self.jobs@, job_key()),
                unique_by(self.settings@, setting_key()),
                unique_by(self.dictations@, dict_key()),
            decreases self.results@.len() - j,
        {
            if str_eq(self.results[j].job_id.as_str(), id) {
                proof {
                    let s0 = self.results@;
                    lemma_table_remove(s0, result_key(), result_val(), j as int);
                    let k = result_key()(s0[j as int]);
                    assert(bad.contains(k));
                    let m0 = table(s0, result_key(), result_val());
                    assert(m0.remove(k).remove_keys(bad) =~= m0.remove_keys(bad));
                }
                self.results.remove(j);
            } else {
                j = j + 1;
            }
        }
        proof {
            let m = table(self.results@, result_key(), result_val());
            assert forall|k: (Seq<char>, Seq<char>)| #[trigger] m.contains_key(k) implies !bad.contains(k) by {
                let t = choose|t: int|
                    0 <= t < self.results@.len() && result_key()(#[trigger] self.results@[t]) == k;
            }
            assert(m.remove_keys(bad) =~= m);
        }
        match self.find_job(id) {
            Some(i) => {
                proof { lemma_table_remove(self.jobs@, job_key(), job_val(), i as int); }
                self.jobs.remove(i);
            },
            None => {
                proof {
                    let m = table(self.jobs@, job_key(), job_val());
                    assert(m.remove(id@) =~= m);
                }
            },
        }
        Ok(())
    }

    /// Deletes every job and artefact; settings stay.
    pub fn clear(&mut self) -> (r: Result<(), String>)
        requires
            old(self).wf(),
        ensures
            final(self).wf(),
            r is Ok,
            final(self)@.jobs == Map::<Seq<char>, JobV>::empty(),
            final(self)@.results == Map::<(Seq<char>, Seq<char>), ResultV>::empty(),
            final(self)@.settings == old(self)@.settings,
            final(self)@.dictations == old(self)@.dictations,
    {
        self.results = Vec::new();
        self.jobs = Vec::new();
        proof {
            lemma_table_empty(job_key(), job_val());
            lemma_table_empty(result_key(), result_val());
        }
        Ok(())
    }

    fn find_result(&self, job_id: &str, kind: &str) -> (r: Option<usize>)
        ensures
            match r {
                Some(i) => i < self.results@.len() && self.results@[i as int].key() == (job_id@, kind@),
                None => !has_key(self.results@, result_key(), (job_id@, kind@)),
            },
    {
        let mut i: usize = 0;
        while i < self.results.len()
            invariant
                i <= self.results@.len(),
                forall|j: int| 0 <= j < i ==> (#[trigger] self.results@[j]).key() != (job_id@, kind@),
            decreases self.results@.len() - i,
        {
            if str_eq(self.results[i].job_id.as_str(), job_id) && str_eq(
                self.results[i].kind.as_str(),
                kind,
            ) {
                return Some(i);
            }
            i = i + 1;
        }
        None
    }

    /// Stores an artefact, replacing the one of the same job and kind.
    pub fn save_result(&mut self, r: &JobResult) -> (res: Result<(), String>)
        requires
            old(self).wf(),
        ensures
            final(self).wf(),
            res is Ok,
            final(self)@.results == old(self)@.results.insert(r.key(), r@),
            final(self)@.jobs == old(self)@.jobs,
            final(self)@.settings == old(self)@.settings,
            final(self)@.dictations == old(self)@.dictations,
    {
        let row = r.copy();
        match self.find_result(r.job_id.as_str(), r.kind.as_str()) {
            Some(i) => {
                proof { lemma_table_update(self.results@, result_key(), result_val(), i as int, row); }
                self.results[i] = row;
            },
            None => {
                proof { lemma_table_push(self.results@, result_key(), result_val(), row); }
                self.results.push(row);
            },
        }
        Ok(())
    }

    /// The cached digest of a long recording, if one was stored.
    pub fn digest_for(&self, job_id: &str) -> (r: Option<String>)
        requires
            self.wf(),
        ensures
            r is Some <==> self@.results.contains_key((job_id@, digest_kind())),
            r is Some ==> r->0@ == self@.results[(job_id@, digest_kind())].text,
    {
        proof { reveal_strlit("digest"); }
        assert("digest"@ =~= digest_kind());
        match self.find_result(job_id, "digest") {
            Some(i) => {
                proof { lemma_table_at(self.results@, result_key(), result_val(), i as int); }
                Some(self.results[i].text.clone())
            },
            None => None,
        }
    }

    /// The artefacts of a job shown to the user (every kind but the digest), oldest first.
    pub fn results_for(&self, job_id: &str) -> (r: Result<Vec<JobResult>, String>)
        requires
            self.wf(),
        ensures
            r is Ok,
            shown_results(self@.results, job_id@, r->Ok_0@),
    {
        proof { reveal_strlit("digest"); }
        assert("digest"@ =~= digest_kind());
        let mut sel: Vec<usize> = Vec::new();
        let mut keys: Vec<i64> = Vec::new();
        let mut i: usize = 0;
        while i < self.results.len()
            invariant
                i <= self.results@.len(),
                sel@.len() == keys@.len(),
                forall|u: int| 0 <= u < sel@.len() ==> #[trigger] sel@[u] < i,
                forall|u: int, v: int| 0 <= u < v < sel@.len() ==> sel@[u] < sel@[v],
                forall|u: int| 0 <= u < sel@.len() ==> {
                    let x = #[trigger] self.results@[sel@[u] as int];
                    &&& x.job_id@ == job_id@
                    &&& x.kind@ != digest_kind()
                    &&& keys@[u] == x.created_at
                },
                forall|j: int| 0 <= j < i && (#[trigger] self.results@[j]).job_id@ == job_id@
                    && self.results@[j].kind@ != digest_kind() ==> sel@.contains(j as usize),
                "digest"@ == digest_kind(),
            decreases self.results@.len() - i,
        {
            let ghost old_sel = sel@;
            if str_eq(self.results[i].job_id.as_str(), job_id) && !str_eq(
                self.results[i].kind.as_str(),
                "digest",
            ) {
                sel.push(i);
                keys.push(self.results[i].created_at);
                proof {
                    assert(sel@[sel@.len() - 1] == i);
                    assert forall|j: int| 0 <= j < i && (#[trigger] self.results@[j]).job_id@
                        == job_id@ && self.results@[j].kind@ != digest_kind() implies sel@.contains(
                        j as usize,
                    ) by {
                        let u = choose|u: int| 0 <= u < old_sel.len() && old_sel[u] == j as usize;
                        assert(sel@[u] == j as usize);
                    }
                }
            }
            i = i + 1;
        }
        let p = order_by(&keys, false);
        let mut out: Vec<JobResult> = Vec::new();
        let mut t: usize = 0;
        while t < p.len()
            invariant
                t <= p@.len(),
                is_perm(p@, sel@.len() as int),
                forall|u: int| 0 <= u < sel@.len() ==> #[trigger] sel@[u] < self.results@.len(),
                out@.len() == t,
                forall|u: int| 0 <= u < t ==> (#[trigger] out@[u])@ == self.results@[sel@[p@[u] as int] as int]@,
            decreases p@.len() - t,
        {
            out.push(self.results[sel[p[t]]].copy());
            t = t + 1;
        }
        proof {
            let n = self.results@.len();
            assert forall|u: int| 0 <= u < out@.len() implies {
                let x = #[trigger] out@[u];
                &&& x.job_id@ == job_id@
                &&& x.kind@ != digest_kind()
                &&& self@.results.contains_key(x.key())
                &&& self@.results[x.key()] == x@
            } by {
                let i = sel@[p@[u] as int] as int;
                lemma_table_at(self.results@, result_key(), result_val(), i);
            }
            assert forall|k: (Seq<char>, Seq<char>)| #[trigger] self@.results.contains_key(k) && k.0
                == job_id@ && k.1 != digest_kind() implies exists|u: int|
                0 <= u < out@.len() && (#[trigger] out@[u]).key() == k by {
                let i = choose|i: int| 0 <= i < n && result_key()(#[trigger] self.results@[i]) == k;
                assert(sel@.contains(i as usize));
                let v = choose|v: int| 0 <= v < sel@.len() && sel@[v] == i as usize;
                assert(p@.contains(v as usize));
                let u = choose|u: int| 0 <= u < p@.len() && p@[u] == v as usize;
                assert(out@[u]@ == self.results@[i]@);
                assert(out@[u].key() == k);
            }
            assert forall|a: int, b: int| 0 <= a < b < out@.len() implies (#[trigger] out@[a]).key() != (
            #[trigger] out@[b]).key() && out@[a].created_at <= out@[b].created_at by {
                let ia = sel@[p@[a] as int] as int;
                let ib = sel@[p@[b] as int] as int;
                assert(p@[a] != p@[b]);
                if p@[a] < p@[b] {
                    assert(ia < ib);
                    assert(result_key()(self.results@[ia]) != result_key()(self.results@[ib]));
                } else {
                    assert(ib < ia);
                    assert(result_key()(self.results@[ib]) != result_key()(self.results@[ia]));
                }
                assert(in_order(keys@[p@[a] as int], keys@[p@[b] as int], false));
            }
        }
        assert(shown_results(self@.results, job_id@, out@));
        Ok(out)
    }

    fn find_dictation(&self, id: &str) -> (r: Option<usize>)
        ensures
            match r {
                Some(i) => i < self.dictations@.len() && self.dictations@[i as int].id@ == id@,
                None => !has_key(self.dictations@, dict_key(), id@),
            },
    {
        let mut i: usize = 0;
        while i < self.dictations.len()
            invariant
                i <= self.dictations@.len(),
                forall|j: int| 0 <= j < i ==> (#[trigger] self.dictations@[j]).id@ != id@,
            decreases self.dictations@.len() - i,
        {
            if str_eq(self.dictations[i].id.as_str(), id) {
                return Some(i);
            }
            i = i + 1;
        }
        None
    }

    /// Stores a dictation, replacing the one with the same id.
    pub fn save_dictation(&mut self, d: &StoredDictation) -> (r: Result<(), String>)
        requires
            old(self).wf(),
        ensures
            final(self).wf(),
            r is Ok,
            final(self)@.dictations == old(self)@.dictations.insert(d.id@, d@),
            final(self)@.jobs == old(self)@.jobs,
            final(self)@.results == old(self)@.results,
            final(self)@.settings == old(self)@.settings,
    {
        let row = d.copy();
        match self.find_dictation(d.id.as_str()) {
            Some(i) => {
                proof { lemma_table_update(self.dictations@, dict_key(), dict_val(), i as int, row); }
                self.dictations[i] = row;
            },
            None => {
                proof { lemma_table_push(self.dictations@, dict_key(), dict_val(), row); }
                self.dictations.push(row);
            },
        }
        Ok(())
    }

    /// All dictations, newest first.
    pub fn list_dictations(&self) -> (r: Result<Vec<StoredDictation>, String>)
        requires
            self.wf(),
        ensures
            r is Ok,
            r->Ok_0@.len() == self@.dictations.len(),
            forall|t: int| 0 <= t < r->Ok_0@.len() ==> self@.dictations.contains_key(#[trigger] r->Ok_0@[t].id@)
                && self@.dictations[r->Ok_0@[t].id@] == r->Ok_0@[t]@,
            forall|k: Seq<char>| #[trigger] self@.dictations.contains_key(k) ==> exists|t: int|
                0 <= t < r->Ok_0@.len() && (#[trigger] r->Ok_0@[t]).id@ == k,
            forall|a: int, b: int| 0 <= a < b < r->Ok_0@.len() ==> (#[trigger] r->Ok_0@[a]).id@ != (
            #[trigger] r->Ok_0@[b]).id@ && r->Ok_0@[a].created_at >= r->Ok_0@[b].created_at,
    {
        let mut keys: Vec<i64> = Vec::new();
        let mut i: usize = 0;
        while i < self.dictations.len()
            invariant
                i <= self.dictations@.len(),
                keys@.len() == i,
                forall|j: int| 0 <= j < i ==> keys@[j] == (#[trigger] self.dictations@[j]).created_at,
            decreases self.dictations@.len() - i,
        {
            keys.push(self.dictations[i].created_at);
            i = i + 1;
        }
        let p = order_by(&keys, true);
        let mut out: Vec<StoredDictation> = Vec::new();
        let mut t: usize = 0;
        while t < p.len()
            invariant
                t <= p@.len(),
                is_perm(p@, self.dictations@.len() as int),
                out@.len() == t,
                forall|u: int| 0 <= u < t ==> (#[trigger] out@[u])@ == self.dictations@[p@[u] as int]@,
            decreases p@.len() - t,
        {
            out.push(self.dictations[p[t]].copy());
            t = t + 1;
        }
        proof {
            let n = self.dictations@.len();
            assert(self.dictations@.len() == self@.dictations.len()) by {
                lemma_table_len(self.dictations@, dict_key(), dict_val());
            }
            assert forall|u: int| 0 <= u < out@.len() implies self@.dictations.contains_key(
                #[trigger] out@[u].id@,
            ) && self@.dictations[out@[u].id@] == out@[u]@ by {
                lemma_table_at(self.dictations@, dict_key(), dict_val(), p@[u] as int);
            }
            assert forall|k: Seq<char>| #[trigger] self@.dictations.contains_key(k) implies exists|u: int|
                0 <= u < out@.len() && (#[trigger] out@[u]).id@ == k by {
                let i = choose|i: int| 0 <= i < n && dict_key()(#[trigger] self.dictations@[i]) == k;
                assert(p@.contains(i as usize));
                let u = choose|u: int| 0 <= u < p@.len() && p@[u] == i as usize;
                assert(out@[u].id@ == k);
            }
            assert forall|a: int, b: int| 0 <= a < b < out@.len() implies (#[trigger] out@[a]).id@ != (
            #[trigger] out@[b]).id@ && out@[a].created_at >= out@[b].created_at by {
                assert(p@[a] != p@[b]);
                if p@[a] < p@[b] {
                    assert(dict_key()(self.dictations@[p@[a] as int]) != dict_key()(self.dictations@[p@[b] as int]));
                } else {
                    assert(dict_key()(self.dictations@[p@[b] as int]) != dict_key()(self.dictations@[p@[a] as int]));
                }
                assert(in_order(keys@[p@[a] as int], keys@[p@[b] as int], true));
            }
        }
        Ok(out)
    }

    /// Deletes a dictation.
    pub fn delete_dictation(&mut self, id: &str) -> (r: Result<(), String>)
        requires
            old(self).wf(),
        ensures
            final(self).wf(),
            r is Ok,
            final(self)@.dictations == old(self)@.dictations.remove(id@),
            final(self)@.jobs == old(self)@.jobs,
            final(self)@.results == old(self)@.results,
            final(self)@.settings == old(self)@.settings,
    {
        match self.find_dictation(id) {
            Some(i) => {
                proof { lemma_table_remove(self.dictations@, dict_key(), dict_val(), i as int); }
                self.dictations.remove(i);
            },
            None => {
                proof {
                    let m = table(self.dictations@, dict_key(), dict_val());
                    assert(m.remove(id@) =~= m);
                }
            },
        }
        Ok(())
    }

    /// Deletes every dictation; jobs, artefacts and settings stay.
    pub fn clear_dictations(&mut self) -> (r: Result<(), String>)
        requires
            old(self).wf(),
        ensures
            final(self).wf(),
            r is Ok,
            final(self)@.dictations == Map::<Seq<char>, DictV>::empty(),
            final(self)@.jobs == old(self)@.jobs,
            final(self)@.results == old(self)@.results,
            final(self)@.settings == old(self)@.settings,
    {
        self.dictations = Vec::new();
        proof { lemma_table_empty(dict_key(), dict_val()); }
        Ok(())
    }
}

} // verus!

verus! {

/// A setting reads back as it was last written.
pub proof fn law_setting_read_back(settings: Map<Seq<char>, Seq<char>>, key: Seq<char>, value: Seq<char>)
    ensures
        settings.insert(key, value).contains_key(key),
        settings.insert(key, value)[key] == value,
{
}

/// Saving replaces: saving a row twice under one key leaves the second.
pub proof fn law_save_replaces<K, V>(table: Map<K, V>, key: K, first: V, second: V)
    ensures
        table.insert(key, first).insert(key, second) == table.insert(key, second),
{
    assert(table.insert(key, first).insert(key, second) =~= table.insert(key, second));
}

/// Deleting a job deletes its artefacts and nothing else: afterwards neither the job nor any
/// artefact of it is there, and every other job and artefact is as it was.
pub proof fn law_delete_cascades(s: StoreV, id: Seq<char>)
    ensures
        ({
            let jobs = s.jobs.remove(id);
            let results = s.results.remove_keys(keys_of_job(id));
            &&& !jobs.contains_key(id)
            &&& forall|k: (Seq<char>, Seq<char>)| #[trigger] results.contains_key(k) ==> k.0 != id
            &&& forall|j: Seq<char>| j != id ==> (#[trigger] jobs.contains_key(j) == s.jobs.contains_key(j))
            &&& forall|k: (Seq<char>, Seq<char>)| k.0 != id ==> (#[trigger] results.contains_key(k) == s.results.contains_key(k))
        }),
{
}

/// The internal digest is never shown among a job's artefacts.
pub proof fn law_digest_hidden(m: Map<(Seq<char>, Seq<char>), ResultV>, job_id: Seq<char>, v: Seq<JobResult>)
    requires
        shown_results(m, job_id, v),
    ensures
        forall|t: int| 0 <= t < v.len() ==> (#[trigger] v[t]).kind@ != digest_kind(),
{
}

} // verus!
