//! The schema cache: backend tool metadata and per-backend error state.
//!
//! The cache maps each backend name either to its tool list or to a fatal
//! error message, never both. Repairing a backend installs its tool list
//! and clears any prior error; recording an error installs the message and
//! clears any stale tool list. Reading and writing the persisted file is
//! the caller's concern; this module only computes cache states.

use vstd::prelude::*;

use crate::alist::{
    amap, distinct_keys, lemma_amap_contains, lemma_amap_index, lemma_amap_push,
    lemma_amap_remove, lemma_amap_update,
};
use crate::text::str_eq;

verus! {

/// One tool's metadata, carried opaquely in its serialized form.
pub struct ToolDef {
    pub json: String,
}

impl View for ToolDef {
    type V = Seq<char>;

    open spec fn view(&self) -> Seq<char> {
        self.json@
    }
}

/// The persisted cache: a version tag, each backend's tool list, and each
/// broken backend's error message.
pub struct SchemaCache {
    version: String,
    servers: Vec<(String, Vec<ToolDef>)>,
    errors: Vec<(String, String)>,
}

impl SchemaCache {
    /// The tool lists as key-value pairs.
    pub closed spec fn server_pairs(&self) -> Seq<(Seq<char>, Seq<Seq<char>>)> {
        self.servers@.map_values(
            |p: (String, Vec<ToolDef>)| (p.0@, p.1@.map_values(|t: ToolDef| t@)),
        )
    }

    /// The error messages as key-value pairs.
    pub closed spec fn error_pairs(&self) -> Seq<(Seq<char>, Seq<char>)> {
        self.errors@.map_values(|p: (String, String)| (p.0@, p.1@))
    }

    /// The tool lists, as a map from backend name to serialized tools.
    pub closed spec fn servers_map(&self) -> Map<Seq<char>, Seq<Seq<char>>> {
        amap(self.server_pairs())
    }

    /// The error messages, as a map from backend name to message.
    pub closed spec fn errors_map(&self) -> Map<Seq<char>, Seq<char>> {
        amap(self.error_pairs())
    }

    /// The version tag.
    pub closed spec fn version_view(&self) -> Seq<char> {
        self.version@
    }

    /// Well-formedness: backend names are unique on both sides.
    pub closed spec fn wf(&self) -> bool {
        distinct_keys(self.server_pairs()) && distinct_keys(self.error_pairs())
    }

    /// An empty cache carrying only a version tag: the cold-start state.
    pub fn empty(version: String) -> (c: SchemaCache)
        ensures
            c.wf(),
            c.version_view() == version@,
            c.servers_map() == Map::<Seq<char>, Seq<Seq<char>>>::empty(),
            c.errors_map() == Map::<Seq<char>, Seq<char>>::empty(),
    {
        let c = SchemaCache { version, servers: Vec::new(), errors: Vec::new() };
        proof {
            assert(c.server_pairs() =~= Seq::<(Seq<char>, Seq<Seq<char>>)>::empty());
            assert(c.error_pairs() =~= Seq::<(Seq<char>, Seq<char>)>::empty());
        }
        c
    }

    /// The version tag.
    pub fn version(&self) -> (r: &String)
        ensures
            r@ == self.version_view(),
    {
        &self.version
    }

    /// The stored tool lists, for persisting.
    pub fn server_entries(&self) -> (r: &Vec<(String, Vec<ToolDef>)>)
        ensures
            r@.map_values(|p: (String, Vec<ToolDef>)| (p.0@, p.1@.map_values(|t: ToolDef| t@)))
                == self.server_pairs(),
    {
        &self.servers
    }

    /// The stored error messages, for persisting.
    pub fn error_entries(&self) -> (r: &Vec<(String, String)>)
        ensures
            r@.map_values(|p: (String, String)| (p.0@, p.1@)) == self.error_pairs(),
    {
        &self.errors
    }

    /// Number of backends with a cached tool list.
    pub fn server_count(&self) -> (r: usize)
        ensures
            r as nat == self.server_pairs().len(),
    {
        self.servers.len()
    }

    /// Index of the tool list for `name`, if any.
    fn find_server(&self, name: &str) -> (r: Option<usize>)
        ensures
            match r {
                Some(i) => i < self.servers@.len() && self.servers@[i as int].0@ == name@,
                None => forall|j: int|
                    0 <= j < self.servers@.len() ==> (#[trigger] self.servers@[j]).0@ != name@,
            },
    {
        let n = self.servers.len();
        let mut i: usize = 0;
        while i < n
            invariant
                0 <= i <= n,
                n == self.servers@.len(),
                forall|j: int| 0 <= j < i ==> (#[trigger] self.servers@[j]).0@ != name@,
            decreases n - i,
        {
            if str_eq(self.servers[i].0.as_str(), name) {
                return Some(i);
            }
            i = i + 1;
        }
        None
    }

    /// Index of the error message for `name`, if any.
    fn find_error(&self, name: &str) -> (r: Option<usize>)
        ensures
            match r {
                Some(i) => i < self.errors@.len() && self.errors@[i as int].0@ == name@,
                None => forall|j: int|
                    0 <= j < self.errors@.len() ==> (#[trigger] self.errors@[j]).0@ != name@,
            },
    {
        let n = self.errors.len();
        let mut i: usize = 0;
        while i < n
            invariant
                0 <= i <= n,
                n == self.errors@.len(),
                forall|j: int| 0 <= j < i ==> (#[trigger] self.errors@[j]).0@ != name@,
            decreases n - i,
        {
            if str_eq(self.errors[i].0.as_str(), name) {
                return Some(i);
            }
            i = i + 1;
        }
        None
    }

    /// Whether a tool list for `name` is cached.
    pub fn has_server(&self, name: &str) -> (r: bool)
        requires
            self.wf(),
        ensures
            r == self.servers_map().contains_key(name@),
    {
        proof {
            lemma_amap_contains(self.server_pairs(), name@);
        }
        match self.find_server(name) {
            Some(i) => {
                proof {
                    assert(self.server_pairs()[i as int].0 == name@);
                }
                true
            },
            None => false,
        }
    }

    /// The recorded error for `name`, if any.
    pub fn get_error(&self, name: &str) -> (r: Option<String>)
        requires
            self.wf(),
        ensures
            match r {
                Some(e) => self.errors_map().contains_key(name@) && self.errors_map()[name@]
                    == e@,
                None => !self.errors_map().contains_key(name@),
            },
    {
        proof {
            lemma_amap_contains(self.error_pairs(), name@);
        }
        match self.find_error(name) {
            Some(i) => {
                proof {
                    lemma_amap_index(self.error_pairs(), i as int);
                }
                Some(self.errors[i].1.clone())
            },
            None => None,
        }
    }

    /// Install `tools` for `name` and clear any prior error for it.
    pub fn repair_server_cache(&mut self, name: &str, tools: Vec<ToolDef>)
        requires
            old(self).wf(),
        ensures
            final(self).wf(),
            final(self).version_view() == old(self).version_view(),
            final(self).servers_map() == old(self).servers_map().insert(
                name@,
                tools@.map_values(|t: ToolDef| t@),
            ),
            final(self).errors_map() == old(self).errors_map().remove(name@),
    {
        let ghost old_spairs = self.server_pairs();
        let ghost old_self = *self;
        match self.find_server(name) {
            Some(i) => {
                let _ = self.servers.remove(i);
                self.servers.insert(i, (name.to_owned(), tools));
                proof {
                    assert(self.server_pairs() =~= old_spairs.update(
                        i as int,
                        (old_spairs[i as int].0, self.server_pairs()[i as int].1),
                    ));
                    lemma_amap_update(old_spairs, i as int, self.server_pairs()[i as int].1);
                    assert forall|p: int, q: int|
                        0 <= p < q < self.server_pairs().len() implies self.server_pairs()[p].0
                        != self.server_pairs()[q].0 by {
                        assert(old_spairs[p].0 != old_spairs[q].0);
                    }
                }
            },
            None => {
                self.servers.push((name.to_owned(), tools));
                proof {
                    lemma_amap_contains(old_spairs, name@);
                    assert(self.server_pairs() =~= old_spairs.push(
                        (name@, self.server_pairs().last().1),
                    ));
                    lemma_amap_push(old_spairs, name@, self.server_pairs().last().1);
                    assert forall|p: int, q: int|
                        0 <= p < q < self.server_pairs().len() implies self.server_pairs()[p].0
                        != self.server_pairs()[q].0 by {
                        if q < self.server_pairs().len() - 1 {
                            assert(old_spairs[p].0 != old_spairs[q].0);
                        } else {
                            assert(old_spairs[p].0 == self.server_pairs()[p].0);
                        }
                    }
                }
            },
        }
        let ghost mid_self = *self;
        let ghost old_epairs = self.error_pairs();
        match self.find_error(name) {
            Some(i) => {
                let _ = self.errors.remove(i);
                proof {
                    assert(self.error_pairs() =~= old_epairs.remove(i as int));
                    crate::alist::lemma_distinct_remove(old_epairs, i as int);
                    lemma_amap_remove(old_epairs, i as int);
                }
            },
            None => {
                proof {
                    lemma_amap_contains(old_epairs, name@);
                    assert(self.errors_map() =~= self.errors_map().remove(name@));
                }
            },
        }
        proof {
            assert(self.servers_map() == old(self).servers_map().insert(
                name@,
                tools@.map_values(|t: ToolDef| t@),
            ));
        }
    }

    /// Record a fatal `error` for `name` and clear any stale tool list.
    pub fn set_server_error(&mut self, name: &str, error: &str)
        requires
            old(self).wf(),
        ensures
            final(self).wf(),
            final(self).version_view() == old(self).version_view(),
            final(self).errors_map() == old(self).errors_map().insert(name@, error@),
            final(self).servers_map() == old(self).servers_map().remove(name@),
    {
        let ghost old_epairs = self.error_pairs();
        match self.find_error(name) {
            Some(i) => {
                let _ = self.errors.remove(i);
                self.errors.insert(i, (name.to_owned(), error.to_owned()));
                proof {
                    assert(self.error_pairs() =~= old_epairs.update(
                        i as int,
                        (old_epairs[i as int].0, error@),
                    ));
                    lemma_amap_update(old_epairs, i as int, error@);
                    assert forall|p: int, q: int|
                        0 <= p < q < self.error_pairs().len() implies self.error_pairs()[p].0
                        != self.error_pairs()[q].0 by {
                        assert(old_epairs[p].0 != old_epairs[q].0);
                    }
                }
            },
            None => {
                self.errors.push((name.to_owned(), error.to_owned()));
                proof {
                    lemma_amap_contains(old_epairs, name@);
                    assert(self.error_pairs() =~= old_epairs.push((name@, error@)));
                    lemma_amap_push(old_epairs, name@, error@);
                    assert forall|p: int, q: int|
                        0 <= p < q < self.error_pairs().len() implies self.error_pairs()[p].0
                        != self.error_pairs()[q].0 by {
                        if q < self.error_pairs().len() - 1 {
                            assert(old_epairs[p].0 != old_epairs[q].0);
                        } else {
                            assert(old_epairs[p].0 == self.error_pairs()[p].0);
                        }
                    }
                }
            },
        }
        let ghost old_spairs = self.server_pairs();
        match self.find_server(name) {
            Some(i) => {
                let _ = self.servers.remove(i);
                proof {
                    assert(self.server_pairs() =~= old_spairs.remove(i as int));
                    crate::alist::lemma_distinct_remove(old_spairs, i as int);
                    lemma_amap_remove(old_spairs, i as int);
                }
            },
            None => {
                proof {
                    lemma_amap_contains(old_spairs, name@);
                    assert(self.servers_map() =~= self.servers_map().remove(name@));
                }
            },
        }
    }
}

/// Build the cache state to persist from a version tag and each backend's
/// tool list, with no recorded errors. The names must be distinct, as the
/// keys of the mapping they came from are.
pub fn save_cache(version: String, servers: Vec<(String, Vec<ToolDef>)>) -> (c: SchemaCache)
    requires
        forall|i: int, j: int|
            0 <= i < j < servers@.len() ==> (#[trigger] servers@[i]).0@ != (
            #[trigger] servers@[j]).0@,
    ensures
        c.wf(),
        c.version_view() == version@,
        c.server_pairs().len() == servers@.len(),
        forall|i: int|
            0 <= i < servers@.len() ==> c.servers_map().contains_key(
                (#[trigger] servers@[i]).0@,
            ) && c.servers_map()[servers@[i].0@] == servers@[i].1@.map_values(|t: ToolDef| t@),
        c.errors_map() == Map::<Seq<char>, Seq<char>>::empty(),
{
    let c = SchemaCache { version, servers, errors: Vec::new() };
    proof {
        assert(c.error_pairs() =~= Seq::<(Seq<char>, Seq<char>)>::empty());
        assert forall|i: int| 0 <= i < c.servers@.len() implies c.servers_map().contains_key(
            (#[trigger] c.servers@[i]).0@,
        ) && c.servers_map()[c.servers@[i].0@] == c.servers@[i].1@.map_values(
            |t: ToolDef| t@,
        ) by {
            lemma_amap_index(c.server_pairs(), i);
        }
    }
    c
}

} // verus!
