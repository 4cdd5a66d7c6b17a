//! Declared type environment: the types recorded on class members and
//! module-level bindings, keyed by `(owner, member)`.

use vstd::prelude::*;

use crate::pattern::opt_string_view;
use crate::text::{str_eq_chars, str_to_string, to_chars};

verus! {

/// One recorded type: owner (none for a module-level binding), member
/// or binding name, declared type.
struct TypeEntry {
    owner: Option<String>,
    member: String,
    declared: String,
}

pub type TypeKey = (Option<Seq<char>>, Seq<char>);

spec fn entry_key(e: TypeEntry) -> TypeKey {
    (opt_string_view(e.owner), e.member@)
}

/// Declared types of members and module-level bindings.
pub struct TypeEnv {
    entries: Vec<TypeEntry>,
}

impl View for TypeEnv {
    type V = Map<TypeKey, Seq<char>>;

    closed spec fn view(&self) -> Map<TypeKey, Seq<char>> {
        Map::new(
            |k: TypeKey| exists|i: int| 0 <= i < self.entries@.len() && entry_key(self.entries@[i]) == k,
            |k: TypeKey|
                self.entries@[choose|i: int|
                    0 <= i < self.entries@.len() && entry_key(self.entries@[i]) == k].declared@,
        )
    }
}

impl TypeEnv {
    /// No key is recorded twice.
    pub closed spec fn wf(&self) -> bool {
        forall|i: int, j: int|
            0 <= i < self.entries@.len() && 0 <= j < self.entries@.len() && i != j ==> entry_key(
                self.entries@[i],
            ) != entry_key(self.entries@[j])
    }

    pub fn new() -> (env: TypeEnv)
        ensures
            env.wf(),
            env@ == Map::<TypeKey, Seq<char>>::empty(),
            env@.dom().finite(),
    {
        let env = TypeEnv { entries: Vec::new() };
        assert(env@ =~= Map::<TypeKey, Seq<char>>::empty());
        env
    }

    fn index_of(&self, owner: Option<&[char]>, member: &[char]) -> (r: Option<usize>)
        ensures
            match r {
                Some(i) => i < self.entries@.len() && entry_key(self.entries@[i as int]) == (
                    match owner {
                        Some(o) => Some(o@),
                        None => None::<Seq<char>>,
                    },
                    member@,
                ),
                None => forall|i: int|
                    0 <= i < self.entries@.len() ==> entry_key(self.entries@[i]) != (
                        match owner {
                            Some(o) => Some(o@),
                            None => None::<Seq<char>>,
                        },
                        member@,
                    ),
            },
    {
        let ghost key = (
            match owner {
                Some(o) => Some(o@),
                None => None::<Seq<char>>,
            },
            member@,
        );
        let mut i: usize = 0;
        while i < self.entries.len()
            invariant
                i <= self.entries@.len(),
                key == (
                    match owner {
                        Some(o) => Some(o@),
                        None => None::<Seq<char>>,
                    },
                    member@,
                ),
                forall|k: int| 0 <= k < i ==> entry_key(self.entries@[k]) != key,
            decreases self.entries@.len() - i,
        {
            let e = &self.entries[i];
            let owner_same = match (&e.owner, owner) {
                (Some(a), Some(b)) => str_eq_chars(a.as_str(), b),
                (None, None) => true,
                _ => false,
            };
            if owner_same && str_eq_chars(e.member.as_str(), member) {
                return Some(i);
            }
            i += 1;
        }
        None
    }

    fn record(&mut self, owner: Option<&str>, member: &str, declared_type: &str)
        requires
            old(self).wf(),
        ensures
            final(self).wf(),
            final(self)@ == old(self)@.insert(
                (
                    match owner {
                        Some(o) => Some(o@),
                        None => None::<Seq<char>>,
                    },
                    member@,
                ),
                declared_type@,
            ),
    {
        let ghost key = (
            match owner {
                Some(o) => Some(o@),
                None => None::<Seq<char>>,
            },
            member@,
        );
        let oc = match owner {
            Some(o) => Some(to_chars(o)),
            None => None,
        };
        let mc = to_chars(member);
        let found = match &oc {
            Some(v) => self.index_of(Some(v.as_slice()), mc.as_slice()),
            None => self.index_of(None, mc.as_slice()),
        };
        let entry = TypeEntry {
            owner: match owner {
                Some(o) => Some(str_to_string(o)),
                None => None,
            },
            member: str_to_string(member),
            declared: str_to_string(declared_type),
        };
        assert(entry_key(entry) == key);
        let ghost old_map = self@;
        let ghost old_entries = self.entries@;
        match found {
            Some(i) => {
                self.entries.set(i, entry);
                assert forall|a: int, b: int|
                    0 <= a < self.entries@.len() && 0 <= b < self.entries@.len() && a != b implies entry_key(
                    self.entries@[a],
                ) != entry_key(self.entries@[b]) by {
                    assert(entry_key(self.entries@[a]) == entry_key(old_entries[a]));
                    assert(entry_key(self.entries@[b]) == entry_key(old_entries[b]));
                }
                assert(self@ =~= old_map.insert(key, declared_type@)) by {
                    assert forall|k: TypeKey| #[trigger] self@.contains_key(k) implies self@[k]
                        == old_map.insert(key, declared_type@)[k] by {
                        let j = choose|j: int|
                            0 <= j < self.entries@.len() && entry_key(self.entries@[j]) == k;
                        if k == key {
                            assert(j == i);
                        } else {
                            assert(entry_key(old_entries[j]) == k);
                            let j2 = choose|j2: int|
                                0 <= j2 < old_entries.len() && entry_key(old_entries[j2]) == k;
                            assert(entry_key(self.entries@[j2]) == entry_key(old_entries[j2]));
                            assert(j2 == j);
                        }
                    }
                    assert forall|k: TypeKey| old_map.insert(key, declared_type@).contains_key(k) implies #[trigger] self@.contains_key(k) by {
                        if k != key {
                            let j = choose|j: int| 0 <= j < old_entries.len() && entry_key(old_entries[j]) == k;
                            assert(entry_key(self.entries@[j]) == entry_key(old_entries[j]));
                        } else {
                            assert(entry_key(self.entries@[i as int]) == key);
                        }
                    }
                }
            },
            None => {
                self.entries.push(entry);
                let ghost n = old_entries.len() as int;
                assert forall|a: int, b: int|
                    0 <= a < self.entries@.len() && 0 <= b < self.entries@.len() && a != b implies entry_key(
                    self.entries@[a],
                ) != entry_key(self.entries@[b]) by {
                    if a < n {
                        assert(self.entries@[a] == old_entries[a]);
                    }
                    if b < n {
                        assert(self.entries@[b] == old_entries[b]);
                    }
                }
                assert(self@ =~= old_map.insert(key, declared_type@)) by {
                    assert forall|k: TypeKey| #[trigger] self@.contains_key(k) implies self@[k]
                        == old_map.insert(key, declared_type@)[k] by {
                        let j = choose|j: int|
                            0 <= j < self.entries@.len() && entry_key(self.entries@[j]) == k;
                        if k == key {
                            assert(entry_key(self.entries@[n]) == key);
                        } else {
                            assert(j < n);
                            assert(self.entries@[j] == old_entries[j]);
                            let j2 = choose|j2: int|
                                0 <= j2 < old_entries.len() && entry_key(old_entries[j2]) == k;
                            assert(self.entries@[j2] == old_entries[j2]);
                            assert(j2 == j);
                        }
                    }
                    assert forall|k: TypeKey| old_map.insert(key, declared_type@).contains_key(k) implies #[trigger] self@.contains_key(k) by {
                        if k != key {
                            let j = choose|j: int| 0 <= j < old_entries.len() && entry_key(old_entries[j]) == k;
                            assert(self.entries@[j] == old_entries[j]);
                        } else {
                            assert(entry_key(self.entries@[n]) == key);
                        }
                    }
                }
            },
        }
    }

    /// Record the declared type of `owner_qname.member_name`; an empty
    /// type is not recorded. A later record for the same member
    /// replaces the earlier one.
    pub fn insert_member(&mut self, owner_qname: &str, member_name: &str, declared_type: &str)
        requires
            old(self).wf(),
        ensures
            final(self).wf(),
            declared_type@.len() == 0 ==> final(self)@ == old(self)@,
            declared_type@.len() > 0 ==> final(self)@ == old(self)@.insert(
                (Some(owner_qname@), member_name@),
                declared_type@,
            ),
    {
        let d = to_chars(declared_type);
        if d.len() == 0 {
            return;
        }
        self.record(Some(owner_qname), member_name, declared_type);
    }

    /// Record the declared type of a module-level binding; an empty type
    /// is not recorded.
    pub fn insert_module(&mut self, qname: &str, declared_type: &str)
        requires
            old(self).wf(),
        ensures
            final(self).wf(),
            declared_type@.len() == 0 ==> final(self)@ == old(self)@,
            declared_type@.len() > 0 ==> final(self)@ == old(self)@.insert(
                (None, qname@),
                declared_type@,
            ),
    {
        let d = to_chars(declared_type);
        if d.len() == 0 {
            return;
        }
        self.record(None, qname, declared_type);
    }

    fn lookup(&self, owner: Option<&str>, member: &str) -> (r: Option<&str>)
        requires
            self.wf(),
        ensures
            ({
                let k = (
                    match owner {
                        Some(o) => Some(o@),
                        None => None::<Seq<char>>,
                    },
                    member@,
                );
                match r {
                    Some(t) => self@.contains_key(k) && self@[k] == t@,
                    None => !self@.contains_key(k),
                }
            }),
    {
        let oc = match owner {
            Some(o) => Some(to_chars(o)),
            None => None,
        };
        let mc = to_chars(member);
        let found = match &oc {
            Some(v) => self.index_of(Some(v.as_slice()), mc.as_slice()),
            None => self.index_of(None, mc.as_slice()),
        };
        match found {
            Some(i) => {
                let ghost k = entry_key(self.entries@[i as int]);
                let ghost j = choose|j: int| 0 <= j < self.entries@.len() && entry_key(self.entries@[j]) == k;
                assert(j == i as int);
                Some(self.entries[i].declared.as_str())
            },
            None => None,
        }
    }

    /// The declared type of `owner_qname.member_name`, if recorded.
    pub fn member_type(&self, owner_qname: &str, member_name: &str) -> (r: Option<&str>)
        requires
            self.wf(),
        ensures
            match r {
                Some(t) => self@.contains_key((Some(owner_qname@), member_name@)) && self@[(
                    Some(owner_qname@),
                    member_name@,
                )] == t@,
                None => !self@.contains_key((Some(owner_qname@), member_name@)),
            },
    {
        self.lookup(Some(owner_qname), member_name)
    }

    /// The declared type of a module-level binding, if recorded.
    pub fn module_type(&self, qname: &str) -> (r: Option<&str>)
        requires
            self.wf(),
        ensures
            match r {
                Some(t) => self@.contains_key((None, qname@)) && self@[(None, qname@)] == t@,
                None => !self@.contains_key((None, qname@)),
            },
    {
        self.lookup(None, qname)
    }

    /// Number of recorded entries.
    pub fn len(&self) -> (n: usize)
        requires
            self.wf(),
        ensures
            self@.dom().finite(),
            n == self@.dom().len(),
    {
        let ghost keys = self.entries@.map_values(|e: TypeEntry| entry_key(e));
        proof {
            assert(keys.no_duplicates());
            keys.unique_seq_to_set();
            assert(keys.to_set() =~= self@.dom()) by {
                assert forall|k: TypeKey| keys.to_set().contains(k) implies self@.dom().contains(k) by {
                    let i = choose|i: int| 0 <= i < keys.len() && keys[i] == k;
                    assert(entry_key(self.entries@[i]) == k);
                }
                assert forall|k: TypeKey| self@.dom().contains(k) implies keys.to_set().contains(k) by {
                    let i = choose|i: int| 0 <= i < self.entries@.len() && entry_key(self.entries@[i]) == k;
                    assert(keys[i] == k);
                }
            }
        }
        self.entries.len()
    }

    pub fn is_empty(&self) -> (b: bool)
        requires
            self.wf(),
        ensures
            b == (self@.dom().len() == 0),
    {
        self.len() == 0
    }
}

impl Default for TypeEnv {
    fn default() -> (env: TypeEnv)
        ensures
            env.wf(),
            env@ == Map::<TypeKey, Seq<char>>::empty(),
    {
        TypeEnv::new()
    }
}

/// A member type that is recorded is what a lookup of that member reads
/// back, and recording it leaves every module-level binding as it was:
/// members and module bindings never share a key.
pub proof fn law_member_read_back(
    before: Map<TypeKey, Seq<char>>,
    owner: Seq<char>,
    member: Seq<char>,
    declared: Seq<char>,
    qname: Seq<char>,
)
    requires
        declared.len() > 0,
    ensures
        ({
            let after = before.insert((Some(owner), member), declared);
            &&& after.contains_key((Some(owner), member))
            &&& after[(Some(owner), member)] == declared
            &&& after.contains_key((None, qname)) == before.contains_key((None, qname))
            &&& before.contains_key((None, qname)) ==> after[(None, qname)] == before[(None, qname)]
        }),
{
}

/// A module binding that is recorded is what a lookup reads back, and
/// recording it leaves every member type as it was.
pub proof fn law_module_read_back(
    before: Map<TypeKey, Seq<char>>,
    qname: Seq<char>,
    declared: Seq<char>,
    owner: Seq<char>,
    member: Seq<char>,
)
    requires
        declared.len() > 0,
    ensures
        ({
            let after = before.insert((None, qname), declared);
            &&& after.contains_key((None, qname))
            &&& after[(None, qname)] == declared
            &&& after.contains_key((Some(owner), member)) == before.contains_key((Some(owner), member))
            &&& before.contains_key((Some(owner), member)) ==> after[(Some(owner), member)]
                == before[(Some(owner), member)]
        }),
{
}

impl TypeEnv {
    /// A well-formed environment records finitely many types, so its
    /// length is meaningful before and after an insert.
    pub proof fn lemma_finite(&self)
        requires
            self.wf(),
        ensures
            self@.dom().finite(),
    {
        let keys = self.entries@.map_values(|e: TypeEntry| entry_key(e));
        assert(keys.to_set() =~= self@.dom()) by {
            assert forall|k: TypeKey| keys.to_set().contains(k) implies self@.dom().contains(k) by {
                let i = choose|i: int| 0 <= i < keys.len() && keys[i] == k;
                assert(entry_key(self.entries@[i]) == k);
            }
            assert forall|k: TypeKey| self@.dom().contains(k) implies keys.to_set().contains(k) by {
                let i = choose|i: int| 0 <= i < self.entries@.len() && entry_key(self.entries@[i]) == k;
                assert(keys[i] == k);
            }
        }
        vstd::seq_lib::seq_to_set_is_finite(keys);
    }
}

/// Recording a member type grows the environment by one exactly when
/// that member had no type before; an empty type changes nothing.
pub proof fn law_insert_member_len(
    before: Map<TypeKey, Seq<char>>,
    owner: Seq<char>,
    member: Seq<char>,
    declared: Seq<char>,
)
    requires
        before.dom().finite(),
    ensures
        ({
            let after = if declared.len() == 0 {
                before
            } else {
                before.insert((Some(owner), member), declared)
            };
            &&& after.dom().finite()
            &&& after.dom().len() == before.dom().len() + if declared.len() > 0 && !before.contains_key(
                (Some(owner), member),
            ) {
                1int
            } else {
                0int
            }
        }),
{
    if declared.len() > 0 {
        let k = (Some(owner), member);
        assert(before.insert(k, declared).dom() =~= before.dom().insert(k));
    }
}

} // verus!
