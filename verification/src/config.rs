//! Immutable configuration handed to the ingestion components at startup:
//! the channel list and the set of ignored senders.

use vstd::prelude::*;

verus! {

/// Whether some string in `v` has exactly the characters `name`.
pub open spec fn contains_name(v: Seq<String>, name: Seq<char>) -> bool {
    exists|i: int| 0 <= i < v.len() && v[i]@ == name
}

/// Linear membership test against a list of names.
pub fn vec_contains(v: &Vec<String>, name: &String) -> (r: bool)
    ensures
        r == contains_name(v@, name@),
{
    let mut i: usize = 0;
    while i < v.len()
        invariant
            i <= v@.len(),
            forall|j: int| 0 <= j < i ==> v@[j]@ != name@,
        decreases v@.len() - i,
    {
        if v[i] == *name {
            proof {
                assert(v@[i as int]@ == name@);
            }
            return true;
        }
        i += 1;
    }
    false
}

proof fn lemma_contains_push(v: Seq<String>, s: String)
    ensures
        forall|k: Seq<char>|
            #[trigger] contains_name(v.push(s), k) <==> contains_name(v, k) || s@ == k,
{
    assert forall|k: Seq<char>|
        #[trigger] contains_name(v.push(s), k) <==> contains_name(v, k) || s@ == k by {
        if contains_name(v.push(s), k) {
            let i = choose|i: int| 0 <= i < v.push(s).len() && v.push(s)[i]@ == k;
            if i < v.len() {
                assert(v[i]@ == k);
            } else {
                assert(v.push(s)[i] == s);
            }
        }
        if contains_name(v, k) {
            let i = choose|i: int| 0 <= i < v.len() && v[i]@ == k;
            assert(v.push(s)[i]@ == k);
        }
        if s@ == k {
            assert(v.push(s)[v.len() as int]@ == k);
        }
    }
}

proof fn lemma_contains_take_step(v: Seq<String>, i: int)
    requires
        0 <= i < v.len(),
    ensures
        forall|k: Seq<char>|
            #[trigger] contains_name(v.take(i + 1), k) <==> contains_name(v.take(i), k) || v[i]@
                == k,
{
    assert(v.take(i + 1) =~= v.take(i).push(v[i]));
    lemma_contains_push(v.take(i), v[i]);
}

/// The configuration the process builds once at startup. The ignored set
/// merges the configured user list with the known-bot list, kept free of
/// duplicates.
pub struct Config {
    pub channels: Vec<String>,
    pub ignored_users: Vec<String>,
}

impl Config {
    /// No name appears twice in the ignored set.
    pub open spec fn wf(self) -> bool {
        forall|i: int, j: int|
            0 <= i < j < self.ignored_users@.len() ==> self.ignored_users@[i]@
                != self.ignored_users@[j]@
    }

    /// A name is ignored exactly when some entry of the set spells it.
    pub open spec fn is_ignored(self, name: Seq<char>) -> bool {
        contains_name(self.ignored_users@, name)
    }

    /// Builds the configuration: the ignored set is the union of the
    /// configured ignored users and the bot list, with duplicates dropped.
    pub fn new(channels: Vec<String>, ignored_users: Vec<String>, bots: Vec<String>) -> (r: Self)
        ensures
            r.channels == channels,
            r.wf(),
            forall|k: Seq<char>|
                #[trigger] r.is_ignored(k) <==> contains_name(ignored_users@, k) || contains_name(
                    bots@,
                    k,
                ),
    {
        let mut merged: Vec<String> = Vec::new();
        let mut i: usize = 0;
        while i < ignored_users.len()
            invariant
                i <= ignored_users@.len(),
                forall|a: int, b: int|
                    0 <= a < b < merged@.len() ==> merged@[a]@ != merged@[b]@,
                forall|k: Seq<char>|
                    #[trigger] contains_name(merged@, k) <==> contains_name(
                        ignored_users@.take(i as int),
                        k,
                    ),
            decreases ignored_users@.len() - i,
        {
            let name = ignored_users[i].clone();
            proof {
                lemma_contains_take_step(ignored_users@, i as int);
            }
            if !vec_contains(&merged, &name) {
                proof {
                    lemma_contains_push(merged@, name);
                }
                merged.push(name);
            }
            i += 1;
        }
        proof {
            assert(ignored_users@.take(ignored_users@.len() as int) =~= ignored_users@);
        }
        let mut i: usize = 0;
        while i < bots.len()
            invariant
                i <= bots@.len(),
                forall|a: int, b: int|
                    0 <= a < b < merged@.len() ==> merged@[a]@ != merged@[b]@,
                forall|k: Seq<char>|
                    #[trigger] contains_name(merged@, k) <==> contains_name(ignored_users@, k)
                        || contains_name(bots@.take(i as int), k),
            decreases bots@.len() - i,
        {
            let name = bots[i].clone();
            proof {
                lemma_contains_take_step(bots@, i as int);
            }
            if !vec_contains(&merged, &name) {
                proof {
                    lemma_contains_push(merged@, name);
                }
                merged.push(name);
            }
            i += 1;
        }
        proof {
            assert(bots@.take(bots@.len() as int) =~= bots@);
        }
        Config { channels, ignored_users: merged }
    }
}

} // verus!
