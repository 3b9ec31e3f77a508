//! The namespaces of the server: each holds its own tables, and only an empty
//! namespace other than the default one can be deleted.
use crate::key_order::key_less;
use crate::named_map::NamedMap;
use crate::shared::share_arc;
use std::sync::Arc;
use vstd::prelude::*;

verus! {

#[derive(Debug)]
pub enum DeleteNamespaceError {
    NotFound,
    IsDefault,
    /// The namespace still holds this many tables.
    NotEmpty(usize),
}

/// What the registry asks of a namespace: how many tables it holds now.
pub trait NamespaceTables {
    fn tables_amount(&self) -> usize;
}

pub struct DbNamespaces<N> {
    items: NamedMap<Arc<N>>,
    default_name: String,
}

impl<N> DbNamespaces<N> {
    /// The namespaces by name.
    pub closed spec fn view(&self) -> Map<Seq<char>, Arc<N>> {
        self.items.view()
    }

    /// The name of the default namespace.
    pub closed spec fn default_name(&self) -> Seq<char> {
        self.default_name@
    }

    pub closed spec fn well_formed(&self) -> bool {
        self.items.well_formed()
    }

    /// The names of the namespaces, in increasing order.
    pub closed spec fn names(&self) -> Seq<Seq<char>> {
        self.items.keys()
    }

    /// No namespace yet; `default_name` names the default one.
    pub fn new(default_name: String) -> (r: Self)
        ensures
            r.well_formed(),
            r.view() == Map::<Seq<char>, Arc<N>>::empty(),
            r.default_name() == default_name@,
    {
        Self { items: NamedMap::new(), default_name }
    }

    pub fn get(&self, name: &str) -> (r: Option<Arc<N>>)
        requires
            self.well_formed(),
        ensures
            match r {
                Some(n) => self.view().contains_key(name@) && n == self.view()[name@],
                None => !self.view().contains_key(name@),
            },
    {
        match self.items.get(name) {
            Some(n) => Some(share_arc(n)),
            None => None,
        }
    }

    /// The default namespace, which is created when the server starts.
    pub fn get_default(&self) -> (r: Arc<N>)
        requires
            self.well_formed(),
            self.view().contains_key(self.default_name()),
        ensures
            r == self.view()[self.default_name()],
    {
        self.get(self.default_name.as_str()).unwrap()
    }

    /// The namespace named `name`: the one already there, or else
    /// `namespace`, which is added under that name.
    pub fn get_or_insert(&mut self, name: String, namespace: Arc<N>) -> (r: Arc<N>)
        requires
            old(self).well_formed(),
        ensures
            final(self).well_formed(),
            final(self).default_name() == old(self).default_name(),
            old(self).view().contains_key(name@) ==> r == old(self).view()[name@] && final(self).view() == old(self).view(),
            !old(self).view().contains_key(name@) ==> r == namespace && final(self).view() == old(self).view().insert(name@, namespace),
    {
        if let Some(result) = self.get(name.as_str()) {
            return result;
        }
        let result = share_arc(&namespace);
        self.items.insert(name, namespace);
        result
    }

    /// Every namespace, each once, in the order of their names.
    pub fn get_all(&self) -> (r: Vec<Arc<N>>)
        requires
            self.well_formed(),
        ensures
            forall|i: int, j: int| 0 <= i < j < self.names().len() ==> key_less(#[trigger] self.names()[i], #[trigger] self.names()[j]),
            forall|k: Seq<char>| #[trigger] self.view().contains_key(k) <==> self.names().contains(k),
            r@.len() == self.names().len(),
            forall|i: int| 0 <= i < r@.len() ==> #[trigger] r@[i] == self.view()[self.names()[i]],
            r@.len() == self.view().dom().len(),
            forall|n: Arc<N>| r@.contains(n) <==> exists|k: Seq<char>| #[trigger] self.view().contains_key(k) && self.view()[k] == n,
    {
        let entries = self.items.entries();
        let mut result: Vec<Arc<N>> = Vec::new();
        let mut i: usize = 0;
        while i < entries.len()
            invariant
                i <= entries@.len(),
                result@ == entries@.map_values(|e: (String, Arc<N>)| e.1).subrange(0, i as int),
            decreases entries@.len() - i,
        {
            result.push(share_arc(&entries[i].1));
            i = i + 1;
            assert(result@ =~= entries@.map_values(|e: (String, Arc<N>)| e.1).subrange(0, i as int));
        }
        proof {
            assert(result@ =~= self.items.values());
            self.items.lemma_keys();
            assert forall|i: int| 0 <= i < result@.len() implies #[trigger] result@[i] == self.view()[self.names()[i]] by {
                assert(self.items.view().contains_key(self.items.keys()[i]));
                assert(result@[i] == self.items.values()[i]);
            }
            self.items.lemma_values();
            assert forall|n: Arc<N>| result@.contains(n) <==> exists|k: Seq<char>| #[trigger] self.view().contains_key(k) && self.view()[k] == n by {
                assert(result@.contains(n) <==> self.items.values().contains(n));
                if self.items.values().contains(n) {
                    let k = choose|k: Seq<char>| #[trigger] self.items.view().contains_key(k) && self.items.view()[k] == n;
                    assert(self.view().contains_key(k) && self.view()[k] == n);
                }
                if exists|k: Seq<char>| #[trigger] self.view().contains_key(k) && self.view()[k] == n {
                    let k = choose|k: Seq<char>| #[trigger] self.view().contains_key(k) && self.view()[k] == n;
                    assert(self.items.view().contains_key(k) && self.items.view()[k] == n);
                    assert(self.items.values().contains(n));
                }
            }
        }
        result
    }
}

impl<N: NamespaceTables> DbNamespaces<N> {
    /// Removes the namespace `name` when it exists, is not the default one
    /// and holds no table: it is removed only after `tables_amount` gave 0
    /// for it, and `NotEmpty` carries the amount `tables_amount` gave.
    pub fn delete(&mut self, name: &str) -> (r: Result<Arc<N>, DeleteNamespaceError>)
        requires
            old(self).well_formed(),
        ensures
            final(self).well_formed(),
            final(self).default_name() == old(self).default_name(),
            name@ == old(self).default_name() ==> (r matches Err(DeleteNamespaceError::IsDefault) && final(self).view() == old(self).view()),
            name@ != old(self).default_name() && !old(self).view().contains_key(name@) ==> (r matches Err(DeleteNamespaceError::NotFound) && final(self).view() == old(self).view()),
            name@ != old(self).default_name() && old(self).view().contains_key(name@) ==> match r {
                Ok(n) => n == old(self).view()[name@] && final(self).view() == old(self).view().remove(name@)
                    && call_ensures(N::tables_amount, (&*n,), 0usize),
                Err(DeleteNamespaceError::NotEmpty(amount)) => amount > 0 && final(self).view() == old(self).view()
                    && call_ensures(N::tables_amount, (&*old(self).view()[name@],), amount),
                Err(_) => false,
            },
    {
        let name = name.to_owned();
        if name == self.default_name {
            return Err(DeleteNamespaceError::IsDefault);
        }
        let namespace = match self.items.get(name.as_str()) {
            Some(namespace) => namespace,
            None => return Err(DeleteNamespaceError::NotFound),
        };
        let tables_amount = namespace.tables_amount();
        if tables_amount > 0 {
            return Err(DeleteNamespaceError::NotEmpty(tables_amount));
        }
        Ok(self.items.remove(name.as_str()).unwrap())
    }
}

} // verus!
