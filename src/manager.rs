//! The registry: names bound to identities, identities to values and factories.
use crate::erased::{Factory, Payload};
use crate::error::Error;
use crate::identity::fresh_identity;
use crate::provider::SingletonProvider;
use crate::table::{
    find_key, has_key, lemma_table_index, lemma_table_push, lemma_table_update_any, table_map, unique_keys,
    value_mut,
};
use vstd::prelude::*;

verus! {

/// The alias table with each name read as its characters.
pub open spec fn name_table(s: Seq<(String, u128)>) -> Seq<(Seq<char>, u128)> {
    s.map_values(|p: (String, u128)| (p.0@, p.1))
}

/// Holds singletons of arbitrary types under names.
///
/// A name is bound once to a fresh identity; the identity keys the stored value
/// and, for lazily built singletons, the factory that builds it on first use.
///
/// The tables are vectors of pairs: lookups hand out `&mut` into a stored entry,
/// and vstd specifies that for `Vec` indexing but not for `HashMap::get_mut`.
pub struct SingletonManager {
    /// The singleton stored for each identity.
    singletons: Vec<(u128, Payload)>,
    /// The factory that builds the singleton of an identity on first use.
    singleton_factories: Vec<(u128, Factory)>,
    /// The identity that each name is bound to.
    alias: Vec<(String, u128)>,
}

/// The error of a result, if it is one.
pub open spec fn err_of<T>(r: Result<T, Error>) -> Option<Error> {
    match r {
        Ok(_) => None,
        Err(e) => Some(e),
    }
}

/// `e` is `ServiceDoesNotExist` for `name`.
pub open spec fn is_not_found(e: Option<Error>, name: Seq<char>) -> bool {
    match e {
        Some(Error::ServiceDoesNotExist(s)) => s@ == name,
        _ => false,
    }
}

/// `e` is `FailedToDowncastRefOfService` for `name`.
pub open spec fn is_type_mismatch(e: Option<Error>, name: Seq<char>) -> bool {
    match e {
        Some(Error::FailedToDowncastRefOfService(s)) => s@ == name,
        _ => false,
    }
}

/// `after` is `before` with `name` newly bound to an identity that was free,
/// and a value stored for that identity.
pub open spec fn registers_value(before: SingletonManager, name: Seq<char>, after: SingletonManager) -> bool {
    let id = after.aliases()[name];
    &&& !before.aliases().contains_key(name)
    &&& !before.is_bound(id)
    &&& after.aliases() == before.aliases().insert(name, id)
    &&& after.values() == before.values().insert(id, after.values()[id])
    &&& after.factories() == before.factories()
}

/// `after` is `before` with `name` newly bound to an identity that was free,
/// and a factory registered for that identity; no value is built.
pub open spec fn registers_factory(before: SingletonManager, name: Seq<char>, after: SingletonManager) -> bool {
    let id = after.aliases()[name];
    &&& !before.aliases().contains_key(name)
    &&& !before.is_bound(id)
    &&& after.aliases() == before.aliases().insert(name, id)
    &&& after.values() == before.values()
    &&& after.factories() == before.factories().insert(id, after.factories()[id])
}

/// A lookup of the registered `name` in `before` hands out `handed`: the stored
/// value if there is one, else one built by the factory of the identity. The
/// caller leaves `left` in its place, which `after` holds.
pub open spec fn lookup_step(
    before: SingletonManager,
    name: Seq<char>,
    handed: Payload,
    left: Payload,
    after: SingletonManager,
) -> bool {
    let id = before.aliases()[name];
    &&& before.aliases().contains_key(name)
    &&& before.values().contains_key(id) ==> handed == before.values()[id]
    &&& !before.values().contains_key(id) ==> before.factories().contains_key(id)
    &&& after.aliases() == before.aliases()
    &&& after.factories() == before.factories()
    &&& after.values() == before.values().insert(id, left)
}

/// The outcome of a typed fetch of `name` from `before`, with error `err`
/// (`None` on success), leaving `after`.
pub open spec fn fetched(
    before: SingletonManager,
    name: Seq<char>,
    err: Option<Error>,
    after: SingletonManager,
) -> bool {
    if !before.aliases().contains_key(name) {
        is_not_found(err, name) && after == before
    } else {
        &&& (err is None || is_type_mismatch(err, name))
        &&& exists|h: Payload, l: Payload| #[trigger]
            lookup_step(before, name, h, l, after) && (err is Some ==> l == h)
    }
}

/// The outcome of fetching `name` as a `T`, given what the downcast of its
/// stored value gave: the reference, or `FailedToDowncastRefOfService(name)`.
pub fn downcast_outcome<'a, T>(found: Option<&'a mut T>, name: String) -> (r: Result<&'a mut T, Error>)
    ensures
        match found {
            Some(t) => match r {
                Ok(u) => *u == *t && *final(u) == *final(t),
                Err(_) => false,
            },
            None => r == Err::<&'a mut T, Error>(Error::FailedToDowncastRefOfService(name)),
        },
{
    match found {
        Some(t) => Ok(t),
        None => Err(Error::FailedToDowncastRefOfService(name)),
    }
}

impl SingletonManager {
    /// The identity bound to each registered name.
    pub closed spec fn aliases(&self) -> Map<Seq<char>, u128> {
        table_map(name_table(self.alias@))
    }

    /// The value stored for each identity that has one.
    pub closed spec fn values(&self) -> Map<u128, Payload> {
        table_map(self.singletons@)
    }

    /// The factory registered for each identity that has one.
    pub closed spec fn factories(&self) -> Map<u128, Factory> {
        table_map(self.singleton_factories@)
    }

    /// Some name is bound to `id`.
    pub closed spec fn is_bound(&self, id: u128) -> bool {
        exists|i: int| 0 <= i < self.alias@.len() && #[trigger] self.alias@[i].1 == id
    }

    /// The tables have unique keys, no two names share an identity, and every
    /// stored value or factory belongs to a bound identity.
    pub closed spec fn tables_wf(&self) -> bool {
        &&& unique_keys(name_table(self.alias@))
        &&& unique_keys(self.singletons@)
        &&& unique_keys(self.singleton_factories@)
        &&& forall|i: int, j: int|
            0 <= i < self.alias@.len() && 0 <= j < self.alias@.len() && #[trigger] self.alias@[i].1
                == #[trigger] self.alias@[j].1 ==> i == j
        &&& forall|id: u128| #[trigger] self.values().contains_key(id) ==> self.is_bound(id)
        &&& forall|id: u128| #[trigger] self.factories().contains_key(id) ==> self.is_bound(id)
    }

    /// The tables are consistent and every registered name has a value or a factory.
    pub closed spec fn wf(&self) -> bool {
        &&& self.tables_wf()
        &&& forall|n: Seq<char>| #[trigger]
            self.aliases().contains_key(n) ==> self.values().contains_key(self.aliases()[n])
                || self.factories().contains_key(self.aliases()[n])
    }

    /// An empty registry.
    pub fn new() -> (r: SingletonManager)
        ensures
            r.wf(),
            r.aliases() == Map::<Seq<char>, u128>::empty(),
            r.values() == Map::<u128, Payload>::empty(),
            r.factories() == Map::<u128, Factory>::empty(),
    {
        let r = SingletonManager { singletons: Vec::new(), singleton_factories: Vec::new(), alias: Vec::new() };
        assert(r.aliases() =~= Map::<Seq<char>, u128>::empty());
        assert(r.values() =~= Map::<u128, Payload>::empty());
        assert(r.factories() =~= Map::<u128, Factory>::empty());
        r
    }

    /// Position of `name` in the alias table, if it is registered.
    fn find_alias(&self, name: &String) -> (r: Option<usize>)
        ensures
            match r {
                Some(i) => i < self.alias@.len() && self.alias@[i as int].0@ == name@,
                None => !self.aliases().contains_key(name@),
            },
    {
        let mut i: usize = 0;
        while i < self.alias.len()
            invariant
                i <= self.alias@.len(),
                forall|j: int| 0 <= j < i ==> #[trigger] self.alias@[j].0@ != name@,
            decreases self.alias@.len() - i,
        {
            if self.alias[i].0 == *name {
                return Some(i);
            }
            i = i + 1;
        }
        proof {
            let t = name_table(self.alias@);
            if has_key(t, name@) {
                let j = choose|j: int| 0 <= j < t.len() && #[trigger] t[j].0 == name@;
                assert(self.alias@[j].0@ == name@);
            }
        }
        None
    }

    /// Whether some name of the alias table is bound to `id`.
    fn identity_in_use(&self, id: u128) -> (r: bool)
        ensures
            r == self.is_bound(id),
    {
        let mut i: usize = 0;
        while i < self.alias.len()
            invariant
                i <= self.alias@.len(),
                forall|j: int| 0 <= j < i ==> #[trigger] self.alias@[j].1 != id,
            decreases self.alias@.len() - i,
        {
            if self.alias[i].1 == id {
                return true;
            }
            i = i + 1;
        }
        false
    }

    /// Whether `service_name` is registered, with a value or a factory.
    pub fn has(&self, service_name: &str) -> (r: bool)
        ensures
            r == self.aliases().contains_key(service_name@),
    {
        let name = service_name.to_owned();
        match self.find_alias(&name) {
            Some(i) => {
                proof {
                    let t = name_table(self.alias@);
                    assert(t[i as int].0 == name@);
                    assert(has_key(t, name@));
                }
                true
            },
            None => false,
        }
    }
    /// The tables are consistent and every registered name, except the one
    /// bound to `id`, has a value or a factory.
    pub closed spec fn wf_except(&self, id: u128) -> bool {
        &&& self.tables_wf()
        &&& forall|n: Seq<char>| #[trigger]
            self.aliases().contains_key(n) && self.aliases()[n] != id ==> self.values().contains_key(
                self.aliases()[n],
            ) || self.factories().contains_key(self.aliases()[n])
    }

    /// When the alias table only grows, the identities that have a value or a
    /// factory stay bound, provided each new one is bound.
    proof fn lemma_keys_stay_bound(m: Self, m2: Self)
        requires
            m.tables_wf(),
            m.alias@.len() <= m2.alias@.len(),
            forall|i: int| 0 <= i < m.alias@.len() ==> m2.alias@[i] == #[trigger] m.alias@[i],
            forall|q: u128| #[trigger]
                m2.values().contains_key(q) ==> m.values().contains_key(q) || m2.is_bound(q),
            forall|q: u128| #[trigger]
                m2.factories().contains_key(q) ==> m.factories().contains_key(q) || m2.is_bound(q),
        ensures
            forall|q: u128| #[trigger] m2.values().contains_key(q) ==> m2.is_bound(q),
            forall|q: u128| #[trigger] m2.factories().contains_key(q) ==> m2.is_bound(q),
    {
        assert forall|q: u128| #[trigger] m.is_bound(q) implies m2.is_bound(q) by {
            let j = choose|j: int| 0 <= j < m.alias@.len() && #[trigger] m.alias@[j].1 == q;
            assert(m2.alias@[j].1 == q);
        }
    }

    /// A registry with the alias table of a well-formed one, tables with unique
    /// keys, and values and factories for the same identities is well formed.
    proof fn lemma_wf_same_keys(m: Self)
        requires
            m.wf(),
        ensures
            forall|m2: Self|
                #![trigger m2.wf()]
                m2.alias == m.alias && unique_keys(m2.singletons@) && unique_keys(m2.singleton_factories@)
                    && m2.values().dom() == m.values().dom() && m2.factories().dom() == m.factories().dom()
                    ==> m2.wf(),
    {
        assert forall|m2: Self|
            #![trigger m2.wf()]
            m2.alias == m.alias && unique_keys(m2.singletons@) && unique_keys(m2.singleton_factories@)
                && m2.values().dom() == m.values().dom() && m2.factories().dom() == m.factories().dom()
                implies m2.wf() by {
            assert forall|q: u128| #[trigger] m2.values().contains_key(q) implies m.values().contains_key(q) by {
                assert(m2.values().dom().contains(q));
            }
            assert forall|q: u128| #[trigger] m2.factories().contains_key(q) implies m.factories().contains_key(
                q,
            ) by {
                assert(m2.factories().dom().contains(q));
            }
            Self::lemma_keys_stay_bound(m, m2);
            assert forall|n: Seq<char>| #[trigger] m2.aliases().contains_key(n) implies m2.values().contains_key(
                m2.aliases()[n],
            ) || m2.factories().contains_key(m2.aliases()[n]) by {
                let id = m.aliases()[n];
                if m.values().contains_key(id) {
                    assert(m.values().dom().contains(id));
                    assert(m2.values().dom().contains(id));
                } else {
                    assert(m.factories().dom().contains(id));
                    assert(m2.factories().dom().contains(id));
                }
            }
        }
    }

    /// Binds the free name `name` to `id`, unless `id` is bound already.
    /// Nothing is stored for the identity yet.
    fn bind_alias(&mut self, name: String, id: u128) -> (r: Result<u128, Error>)
        requires
            old(self).tables_wf(),
            !old(self).aliases().contains_key(name@),
        ensures
            final(self).tables_wf(),
            final(self).values() == old(self).values(),
            final(self).factories() == old(self).factories(),
            r == (if old(self).is_bound(id) {
                Err::<u128, Error>(Error::FailedToStoreServiceAlias)
            } else {
                Ok::<u128, Error>(id)
            }),
            r is Err ==> *final(self) == *old(self),
            r is Ok ==> {
                &&& final(self).is_bound(id)
                &&& final(self).aliases() == old(self).aliases().insert(name@, id)
                &&& forall|k: u128| old(self).is_bound(k) ==> #[trigger] final(self).is_bound(k)
            },
    {
        if self.identity_in_use(id) {
            return Err(Error::FailedToStoreServiceAlias);
        }
        let ghost before = *self;
        let ghost key = name@;
        self.alias.push((name, id));
        proof {
            let s = before.alias@;
            assert(name_table(self.alias@) =~= name_table(s).push((key, id)));
            lemma_table_push(name_table(s), key, id);
            let last = s.len() as int;
            assert(self.alias@[last].1 == id);
            assert forall|a: int, b: int|
                0 <= a < self.alias@.len() && 0 <= b < self.alias@.len() && #[trigger] self.alias@[a].1
                    == #[trigger] self.alias@[b].1 implies a == b by {
                if a < last && b == last {
                    assert(s[a].1 == id);
                }
                if b < last && a == last {
                    assert(s[b].1 == id);
                }
            }
            assert(self.values() == before.values());
            assert(self.factories() == before.factories());
            Self::lemma_keys_stay_bound(before, *self);
            assert forall|k: u128| before.is_bound(k) implies #[trigger] self.is_bound(k) by {
                let j = choose|j: int| 0 <= j < s.len() && #[trigger] s[j].1 == k;
                assert(self.alias@[j].1 == k);
            }
        }
        Ok(id)
    }

    /// Binds `service_name` to a freshly drawn identity; nothing is stored for it yet.
    fn store_alias(&mut self, service_name: &str) -> (r: Result<u128, Error>)
        requires
            old(self).tables_wf(),
        ensures
            final(self).tables_wf(),
            final(self).values() == old(self).values(),
            final(self).factories() == old(self).factories(),
            old(self).aliases().contains_key(service_name@) <==> r == Err::<u128, Error>(
                Error::ServiceAlreadyExists,
            ),
            r == Err::<u128, Error>(Error::FailedToStoreServiceAlias) ==> exists|k: u128| #[trigger]
                old(self).is_bound(k),
            match r {
                Ok(id) => {
                    &&& !old(self).is_bound(id)
                    &&& final(self).is_bound(id)
                    &&& final(self).aliases() == old(self).aliases().insert(service_name@, id)
                    &&& forall|k: u128| old(self).is_bound(k) ==> #[trigger] final(self).is_bound(k)
                },
                Err(e) => {
                    &&& *final(self) == *old(self)
                    &&& (e == Error::ServiceAlreadyExists || e == Error::FailedToStoreServiceAlias)
                },
            },
    {
        let name = service_name.to_owned();
        match self.find_alias(&name) {
            Some(i) => {
                proof {
                    let t = name_table(self.alias@);
                    assert(t[i as int].0 == name@);
                    assert(has_key(t, name@));
                }
                return Err(Error::ServiceAlreadyExists);
            },
            None => {},
        }
        let id = fresh_identity();
        self.bind_alias(name, id)
    }

    /// Stores `p` as the first value of the bound identity `id` and hands it
    /// out; what the caller leaves in its place is the stored value.
    fn store_produced(&mut self, id: u128, p: Payload) -> (r: &mut Payload)
        requires
            old(self).wf_except(id),
            old(self).is_bound(id),
            !old(self).values().contains_key(id),
        ensures
            *r == p,
            final(self).wf(),
            final(self).aliases() == old(self).aliases(),
            final(self).factories() == old(self).factories(),
            final(self).values() == old(self).values().insert(id, *final(r)),
    {
        let ghost start = *self;
        proof {
            if has_key(self.singletons@, id) {
                assert(self.values().contains_key(id));
            }
        }
        self.singletons.push((id, p));
        let k = self.singletons.len() - 1;
        let ghost mid = *self;
        proof {
            lemma_table_push(start.singletons@, id, p);
            assert(mid.factories() == start.factories());
            assert(mid.aliases() == start.aliases());
            Self::lemma_keys_stay_bound(start, mid);
            assert forall|n: Seq<char>| #[trigger] mid.aliases().contains_key(n) implies mid.values().contains_key(
                mid.aliases()[n],
            ) || mid.factories().contains_key(mid.aliases()[n]) by {
                assert(start.aliases().contains_key(n));
            }
            lemma_table_index(mid.singletons@, k as int);
            lemma_table_update_any(mid.singletons@, k as int);
            Self::lemma_wf_same_keys(mid);
            assert forall|v: Payload| #[trigger] mid.values().insert(id, v) == start.values().insert(id, v) by {
                assert(mid.values().insert(id, v) =~= start.values().insert(id, v));
            }
            assert forall|v: Payload| #[trigger] mid.values().insert(id, v).dom() == mid.values().dom() by {
                assert(mid.values().insert(id, v).dom() =~= mid.values().dom());
            }
        }
        value_mut(&mut self.singletons, k)
    }

    /// Binds `service_name` to a fresh identity with `factory` registered for it.
    fn register_factory(&mut self, service_name: &str, factory: Factory) -> (r: Result<usize, Error>)
        requires
            old(self).wf(),
        ensures
            final(self).wf(),
            old(self).aliases().contains_key(service_name@) <==> r == Err::<usize, Error>(
                Error::ServiceAlreadyExists,
            ),
            r == Err::<usize, Error>(Error::FailedToStoreServiceAlias) ==> exists|k: u128| #[trigger]
                old(self).is_bound(k),
            match r {
                Ok(k) => {
                    &&& registers_factory(*old(self), service_name@, *final(self))
                    &&& final(self).factories()[final(self).aliases()[service_name@]] == factory
                    &&& k < final(self).singleton_factories@.len()
                    &&& final(self).singleton_factories@[k as int] == (
                        final(self).aliases()[service_name@],
                        factory,
                    )
                },
                Err(e) => {
                    &&& *final(self) == *old(self)
                    &&& (e == Error::ServiceAlreadyExists || e == Error::FailedToStoreServiceAlias)
                },
            },
    {
        let ghost start = *self;
        let id = match self.store_alias(service_name) {
            Ok(id) => id,
            Err(e) => return Err(e),
        };
        let ghost aft = *self;
        proof {
            if has_key(aft.singleton_factories@, id) {
                assert(aft.factories().contains_key(id));
            }
        }
        self.singleton_factories.push((id, factory));
        proof {
            lemma_table_push(aft.singleton_factories@, id, factory);
            assert(self.values() == aft.values());
            assert(self.aliases() == aft.aliases());
            Self::lemma_keys_stay_bound(aft, *self);
            assert forall|n: Seq<char>| #[trigger] self.aliases().contains_key(n) implies self.values().contains_key(
                self.aliases()[n],
            ) || self.factories().contains_key(self.aliases()[n]) by {
                if n != service_name@ {
                    assert(start.aliases().contains_key(n));
                }
            }
        }
        Ok(self.singleton_factories.len() - 1)
    }

    /// Registers `factory` under `service_name` without running it; the value is
    /// built on the first lookup. Returns the stored factory.
    pub fn set_factory(&mut self, service_name: &str, factory: Factory) -> (r: Result<&mut Factory, Error>)
        requires
            old(self).wf(),
        ensures
            final(self).wf(),
            old(self).aliases().contains_key(service_name@) <==> err_of(r) == Some(
                Error::ServiceAlreadyExists,
            ),
            err_of(r) == Some(Error::FailedToStoreServiceAlias) ==> exists|k: u128| #[trigger]
                old(self).is_bound(k),
            match r {
                Ok(f) => {
                    &&& *f == factory
                    &&& registers_factory(*old(self), service_name@, *final(self))
                    &&& final(self).factories()[final(self).aliases()[service_name@]] == *final(f)
                },
                Err(e) => {
                    &&& *final(self) == *old(self)
                    &&& (e == Error::ServiceAlreadyExists || e == Error::FailedToStoreServiceAlias)
                },
            },
    {
        let ghost start = *self;
        let k = match self.register_factory(service_name, factory) {
            Ok(k) => k,
            Err(e) => return Err(e),
        };
        let ghost mid = *self;
        proof {
            let id = mid.aliases()[service_name@];
            lemma_table_index(mid.singleton_factories@, k as int);
            lemma_table_update_any(mid.singleton_factories@, k as int);
            Self::lemma_wf_same_keys(mid);
            assert forall|v: Factory| #[trigger] mid.factories().insert(id, v) == start.factories().insert(id, v) by {
                assert(mid.factories().insert(id, v) =~= start.factories().insert(id, v));
            }
            assert forall|v: Factory| #[trigger] mid.factories().insert(id, v).dom() == mid.factories().dom() by {
                assert(mid.factories().insert(id, v).dom() =~= mid.factories().dom());
            }
        }
        let f = value_mut(&mut self.singleton_factories, k);
        Ok(f)
    }

    /// Stores `service` under `service_name` and returns it as a `T`.
    pub fn set<T: 'static>(&mut self, service_name: &str, service: T) -> (r: Result<&mut T, Error>)
        requires
            old(self).wf(),
        ensures
            final(self).wf(),
            old(self).aliases().contains_key(service_name@) <==> err_of(r) == Some(
                Error::ServiceAlreadyExists,
            ),
            err_of(r) == Some(Error::FailedToStoreServiceAlias) ==> exists|k: u128| #[trigger]
                old(self).is_bound(k),
            err_of(r) == Some(Error::ServiceAlreadyExists) || err_of(r) == Some(
                Error::FailedToStoreServiceAlias,
            ) ==> *final(self) == *old(self),
            err_of(r) is None || is_type_mismatch(err_of(r), service_name@) ==> registers_value(
                *old(self),
                service_name@,
                *final(self),
            ),
            err_of(r) is None || is_type_mismatch(err_of(r), service_name@) || err_of(r) == Some(
                Error::ServiceAlreadyExists,
            ) || err_of(r) == Some(Error::FailedToStoreServiceAlias),
    {
        let ghost start = *self;
        let id = match self.store_alias(service_name) {
            Ok(id) => id,
            Err(e) => return Err(e),
        };
        proof {
            assert forall|n: Seq<char>| #[trigger]
                self.aliases().contains_key(n) && self.aliases()[n] != id implies self.values().contains_key(
                self.aliases()[n],
            ) || self.factories().contains_key(self.aliases()[n]) by {
                assert(start.aliases().contains_key(n));
            }
            if self.values().contains_key(id) {
                assert(start.values().contains_key(id));
            }
        }
        let p = self.store_produced(id, Payload::new(service));
        downcast_outcome(p.downcast_mut::<T>(), service_name.to_owned())
    }

    /// A registered name is bound to its identity.
    proof fn lemma_alias_bound(m: Self, n: Seq<char>)
        requires
            m.tables_wf(),
            m.aliases().contains_key(n),
        ensures
            m.is_bound(m.aliases()[n]),
    {
        let t = name_table(m.alias@);
        let j = choose|j: int| 0 <= j < t.len() && #[trigger] t[j].0 == n;
        lemma_table_index(t, j);
        assert(m.alias@[j].1 == m.aliases()[n]);
    }

    /// The value of the registered `name`, bound to `id`: the stored one, or else
    /// one built now by the factory of `id` and stored.
    fn singleton_get(&mut self, id: u128, name: &String) -> (r: Result<&mut Payload, Error>)
        requires
            old(self).wf(),
            old(self).aliases().contains_key(name@),
            old(self).aliases()[name@] == id,
        ensures
            final(self).wf(),
            match r {
                Ok(p) => lookup_step(*old(self), name@, *p, *final(p), *final(self)),
                Err(_) => false,
            },
    {
        let ghost start = *self;
        match find_key(&self.singletons, id) {
            Some(i) => {
                proof {
                    lemma_table_index(self.singletons@, i as int);
                    lemma_table_update_any(self.singletons@, i as int);
                    Self::lemma_wf_same_keys(*self);
                    assert forall|v: Payload| #[trigger] start.values().insert(id, v).dom() == start.values().dom() by {
                        assert(start.values().insert(id, v).dom() =~= start.values().dom());
                    }
                }
                Ok(value_mut(&mut self.singletons, i))
            },
            None => match find_key(&self.singleton_factories, id) {
                Some(j) => {
                    let p = self.singleton_factories[j].1.produce();
                    proof {
                        Self::lemma_alias_bound(start, name@);
                    }
                    Ok(self.store_produced(id, p))
                },
                None => {
                    proof {
                        assert(!start.values().contains_key(id));
                        assert(!start.factories().contains_key(id));
                    }
                    Err(Error::ServiceDoesNotExist(name.clone()))
                },
            },
        }
    }

    /// The singleton registered under `service_name`, as a `T`. A singleton
    /// registered by factory is built on the first call and kept.
    pub fn get<T: 'static>(&mut self, service_name: &str) -> (r: Result<&mut T, Error>)
        requires
            old(self).wf(),
        ensures
            final(self).wf(),
            fetched(*old(self), service_name@, err_of(r), *final(self)),
    {
        let name = service_name.to_owned();
        match self.find_alias(&name) {
            None => Err(Error::ServiceDoesNotExist(name)),
            Some(i) => {
                let id = self.alias[i].1;
                proof {
                    lemma_table_index(name_table(self.alias@), i as int);
                }
                match self.singleton_get(id, &name) {
                    Ok(p) => downcast_outcome(p.downcast_mut::<T>(), name),
                    Err(e) => Err(e),
                }
            },
        }
    }

    /// Registers `factory` under `service_name` unless the name is taken, then
    /// fetches the singleton as a `T`.
    pub fn get_default<T: 'static>(&mut self, service_name: &str, factory: Factory) -> (r: Result<&mut T, Error>)
        requires
            old(self).wf(),
        ensures
            final(self).wf(),
            old(self).aliases().contains_key(service_name@) ==> fetched(
                *old(self),
                service_name@,
                err_of(r),
                *final(self),
            ),
            !old(self).aliases().contains_key(service_name@) ==> fetched(
                *old(self),
                service_name@,
                err_of(r),
                *final(self),
            ) || exists|mid: SingletonManager| #[trigger]
                registers_factory(*old(self), service_name@, mid) && mid.factories()[mid.aliases()[service_name@]]
                    == factory && mid.wf() && fetched(mid, service_name@, err_of(r), *final(self)),
            !old(self).aliases().contains_key(service_name@) && is_not_found(err_of(r), service_name@)
                ==> exists|k: u128| #[trigger] old(self).is_bound(k),
    {
        if !self.has(service_name) {
            let _ = self.register_factory(service_name, factory);
        }
        self.get::<T>(service_name)
    }

    /// Builds the service that `sp` provides and stores it under the name it gives.
    pub fn provide<P: SingletonProvider>(&mut self, sp: P) -> (r: Result<(), Error>)
        requires
            old(self).wf(),
        ensures
            final(self).wf(),
            r is Ok ==> exists|n: Seq<char>| #[trigger] registers_value(*old(self), n, *final(self)),
            *final(self) == *old(self) || exists|n: Seq<char>| #[trigger]
                registers_value(*old(self), n, *final(self)),
    {
        match sp.get_service() {
            Ok(t) => match self.set(sp.get_name(), t) {
                Ok(_) => Ok(()),
                Err(e) => Err(e),
            },
            Err(e) => Err(e.into()),
        }
    }
}

/// A name, once registered with a value or a factory, stays bound to the fresh
/// identity it got, and the other names keep theirs; so every later `set` or
/// `set_factory` under it is refused with `ServiceAlreadyExists`.
pub proof fn lemma_registered_name_is_taken(before: SingletonManager, name: Seq<char>, after: SingletonManager)
    requires
        registers_value(before, name, after) || registers_factory(before, name, after),
    ensures
        after.aliases().contains_key(name),
        !before.is_bound(after.aliases()[name]),
        forall|n: Seq<char>| #[trigger]
            before.aliases().contains_key(n) ==> after.aliases().contains_key(n) && after.aliases()[n]
                == before.aliases()[n],
{
}

/// Two lookups of a name in a row reach the same value: the second hands out
/// exactly what the caller of the first left in place.
pub proof fn lemma_lookup_identity_stable(
    m0: SingletonManager,
    m1: SingletonManager,
    m2: SingletonManager,
    name: Seq<char>,
    h1: Payload,
    l1: Payload,
    h2: Payload,
    l2: Payload,
)
    requires
        lookup_step(m0, name, h1, l1, m1),
        lookup_step(m1, name, h2, l2, m2),
    ensures
        h2 == l1,
        m2.values()[m2.aliases()[name]] == l2,
{
}

/// A factory is not run when it is registered: its identity has no value yet.
/// The first lookup builds the value and stores it; the next lookup hands out
/// that stored value, so the factory is not run again.
pub proof fn lemma_factory_runs_once(
    m0: SingletonManager,
    m1: SingletonManager,
    m2: SingletonManager,
    m3: SingletonManager,
    name: Seq<char>,
    h1: Payload,
    l1: Payload,
    h2: Payload,
    l2: Payload,
)
    requires
        m0.wf(),
        registers_factory(m0, name, m1),
        lookup_step(m1, name, h1, l1, m2),
        lookup_step(m2, name, h2, l2, m3),
    ensures
        !m1.values().contains_key(m1.aliases()[name]),
        m1.factories().contains_key(m1.aliases()[name]),
        m2.values().contains_key(m1.aliases()[name]),
        m2.factories() == m1.factories(),
        h2 == l1,
{
    let id = m1.aliases()[name];
    if m0.values().contains_key(id) {
        assert(m0.is_bound(id));
    }
}

/// A fetch of a name that is not registered fails with `ServiceDoesNotExist`
/// for that name and changes nothing; `has` is false for the same name.
pub proof fn lemma_unregistered_not_found(
    before: SingletonManager,
    name: Seq<char>,
    err: Option<Error>,
    after: SingletonManager,
)
    requires
        !before.aliases().contains_key(name),
        fetched(before, name, err, after),
    ensures
        is_not_found(err, name),
        after == before,
        !after.aliases().contains_key(name),
{
}

} // verus!