use vstd::prelude::*;

use crate::text::same_text;
use vstd::string::StringExecFns;

verus! {

/// Named query fragments ("presets"), later entries overriding earlier ones
/// of the same name.
pub struct Config {
    pub presets: Vec<(String, String)>,
}

/// A preset list as pairs of name and query.
pub open spec fn entries(p: Seq<(String, String)>) -> Seq<(Seq<char>, Seq<char>)> {
    p.map_values(|e: (String, String)| (e.0@, e.1@))
}

/// The query of the last entry named `name`.
pub open spec fn lookup(p: Seq<(Seq<char>, Seq<char>)>, name: Seq<char>) -> Option<Seq<char>>
    decreases p.len(),
{
    if p.len() == 0 {
        None
    } else if p.last().0 == name {
        Some(p.last().1)
    } else {
        lookup(p.drop_last(), name)
    }
}

/// Why a query could not be put together from presets.
#[derive(Debug, Clone, Copy, PartialEq, Eq, Structural)]
pub enum PresetError {
    /// The preset at this index of the requested names does not exist.
    UnknownPreset(usize),
    /// Neither a query nor a preset gave anything to search for.
    EmptyQuery,
}

impl Config {
    pub open spec fn view_presets(&self) -> Seq<(Seq<char>, Seq<char>)> {
        entries(self.presets@)
    }

    /// A configuration without presets.
    pub fn new() -> (r: Config)
        ensures
            r.view_presets().len() == 0,
    {
        Config { presets: Vec::new() }
    }

    /// The query of the preset `name`.
    pub fn get(&self, name: &str) -> (r: Option<String>)
        ensures
            match r {
                Some(q) => lookup(self.view_presets(), name@) == Some(q@),
                None => lookup(self.view_presets(), name@) is None,
            },
    {
        let ghost p = self.view_presets();
        let mut i = self.presets.len();
        assert(p.take(i as int) =~= p);
        while i > 0
            invariant
                i <= self.presets.len(),
                p == self.view_presets(),
                lookup(p, name@) == lookup(p.take(i as int), name@),
            decreases i,
        {
            let ghost t = p.take(i as int);
            assert(t.drop_last() =~= p.take(i - 1));
            assert(t.last() == (self.presets@[i - 1].0@, self.presets@[i - 1].1@));
            if same_text(self.presets[i - 1].0.as_str(), name) {
                return Some(self.presets[i - 1].1.clone());
            }
            i = i - 1;
        }
        assert(p.take(0) =~= Seq::<(Seq<char>, Seq<char>)>::empty());
        None
    }

    /// Removes the preset `name`.
    pub fn remove(&mut self, name: &str)
        ensures
            forall|n: Seq<char>| #[trigger] lookup(final(self).view_presets(), n) == if n == name@ {
                None
            } else {
                lookup(old(self).view_presets(), n)
            },
    {
        let ghost p = old(self).view_presets();
        let mut kept: Vec<(String, String)> = Vec::new();
        let mut i: usize = 0;
        while i < self.presets.len()
            invariant
                i <= self.presets.len(),
                p == self.view_presets(),
                forall|n: Seq<char>| #[trigger] lookup(entries(kept@), n) == if n == name@ {
                    None
                } else {
                    lookup(p.take(i as int), n)
                },
            decreases self.presets.len() - i,
        {
            let ghost before = entries(kept@);
            assert(p.take(i + 1).drop_last() =~= p.take(i as int));
            assert(p.take(i + 1).last() == (self.presets@[i as int].0@, self.presets@[i as int].1@));
            if !same_text(self.presets[i].0.as_str(), name) {
                let e = (self.presets[i].0.clone(), self.presets[i].1.clone());
                kept.push(e);
                assert(entries(kept@).drop_last() =~= before);
                assert(entries(kept@).last() == (e.0@, e.1@));
                assert forall|n: Seq<char>| #[trigger] lookup(entries(kept@), n) == if n == name@ {
                    None
                } else {
                    lookup(p.take(i + 1), n)
                } by {
                    assert(lookup(entries(kept@), n) == if e.0@ == n {
                        Some(e.1@)
                    } else {
                        lookup(before, n)
                    });
                }
            } else {
                assert(entries(kept@) =~= before);
                assert forall|n: Seq<char>| #[trigger] lookup(entries(kept@), n) == if n == name@ {
                    None
                } else {
                    lookup(p.take(i + 1), n)
                } by {
                    assert(lookup(entries(kept@), n) == lookup(before, n));
                }
            }
            i = i + 1;
        }
        assert(p.take(i as int) =~= p);
        self.presets = kept;
    }

    /// Adds or replaces the preset `name`.
    pub fn set(&mut self, name: String, query: String)
        ensures
            forall|n: Seq<char>| #[trigger] lookup(final(self).view_presets(), n) == if n == name@ {
                Some(query@)
            } else {
                lookup(old(self).view_presets(), n)
            },
    {
        self.remove(name.as_str());
        let ghost before = self.view_presets();
        let ghost entry = (name@, query@);
        self.presets.push((name, query));
        assert(self.view_presets().drop_last() =~= before);
        assert(self.view_presets().last() == entry);
        assert forall|n: Seq<char>| #[trigger] lookup(self.view_presets(), n) == if n == name@ {
            Some(query@)
        } else {
            lookup(old(self).view_presets(), n)
        } by {
            assert(lookup(self.view_presets(), n) == if entry.0 == n {
                Some(entry.1)
            } else {
                lookup(before, n)
            });
        }
    }

    /// Adds every preset of `other`, which override those of the same name.
    pub fn merge(&mut self, other: &Config)
        ensures
            forall|n: Seq<char>| #[trigger] lookup(final(self).view_presets(), n) == match lookup(other.view_presets(), n) {
                Some(q) => Some(q),
                None => lookup(old(self).view_presets(), n),
            },
    {
        let ghost o = other.view_presets();
        let mut i: usize = 0;
        while i < other.presets.len()
            invariant
                i <= other.presets.len(),
                o == other.view_presets(),
                forall|n: Seq<char>| #[trigger] lookup(self.view_presets(), n) == match lookup(o.take(i as int), n) {
                    Some(q) => Some(q),
                    None => lookup(old(self).view_presets(), n),
                },
            decreases other.presets.len() - i,
        {
            assert(o.take(i + 1).drop_last() =~= o.take(i as int));
            assert(o.take(i + 1).last() == (other.presets@[i as int].0@, other.presets@[i as int].1@));
            self.set(other.presets[i].0.clone(), other.presets[i].1.clone());
            i = i + 1;
        }
        assert(o.take(i as int) =~= o);
    }
}

/// `(p)` where `q` is empty, `(p) & q` otherwise.
pub open spec fn conjoin(p: Seq<char>, q: Seq<char>) -> Seq<char> {
    if q.len() == 0 {
        seq!['('] + p + seq![')']
    } else {
        seq!['('] + p + seq![')', ' ', '&', ' '] + q
    }
}

/// The query that the presets `names` (taken from last to first) and the
/// query `q` make together, or the index of the first preset, from the end,
/// that does not exist.
pub open spec fn with_presets(p: Seq<(Seq<char>, Seq<char>)>, names: Seq<Seq<char>>, q: Seq<char>) -> Result<Seq<char>, PresetError>
    decreases names.len(),
{
    if names.len() == 0 {
        Ok(q)
    } else {
        match lookup(p, names.last()) {
            None => Err(PresetError::UnknownPreset((names.len() - 1) as usize)),
            Some(pq) => with_presets(p, names.drop_last(), conjoin(pq, q)),
        }
    }
}

/// The query to search with: each preset, from the last named to the first,
/// is put in parentheses and joined to the query by AND. Nothing to search
/// for is refused.
pub open spec fn final_query(p: Seq<(Seq<char>, Seq<char>)>, names: Seq<Seq<char>>, q: Seq<char>) -> Result<Seq<char>, PresetError> {
    match with_presets(p, names, q) {
        Ok(r) => if r.len() == 0 {
            Err(PresetError::EmptyQuery)
        } else {
            Ok(r)
        },
        Err(e) => Err(e),
    }
}

pub fn compose_query(config: &Config, names: &Vec<String>, query: Option<String>) -> (r: Result<String, PresetError>)
    ensures
        match r {
            Ok(s) => final_query(config.view_presets(), names@.map_values(|n: String| n@), match query {
                Some(q) => q@,
                None => Seq::empty(),
            }) == Ok::<Seq<char>, PresetError>(s@),
            Err(e) => final_query(config.view_presets(), names@.map_values(|n: String| n@), match query {
                Some(q) => q@,
                None => Seq::empty(),
            }) == Err::<Seq<char>, PresetError>(e),
        },
{
    let ghost all = names@.map_values(|n: String| n@);
    let mut q = match query {
        Some(q) => q,
        None => String::new(),
    };
    let ghost q0 = q@;
    let mut i = names.len();
    assert(all.take(i as int) =~= all);
    while i > 0
        invariant
            i <= names.len(),
            all == names@.map_values(|n: String| n@),
            q0 == (match query {
                Some(q) => q@,
                None => Seq::<char>::empty(),
            }),
            with_presets(config.view_presets(), all, q0) == with_presets(config.view_presets(), all.take(i as int), q@),
        decreases i,
    {
        let ghost t = all.take(i as int);
        assert(t.drop_last() =~= all.take(i - 1));
        assert(t.last() == names@[i - 1]@);
        let pq = match config.get(names[i - 1].as_str()) {
            Some(pq) => pq,
            None => return Err(PresetError::UnknownPreset(i - 1)),
        };
        let mut next = String::from_str("(");
        next.append(pq.as_str());
        if q.as_str().is_empty() {
            next.append(")");
        } else {
            next.append(") & ");
            next.append(q.as_str());
        }
        proof {
            reveal_strlit("(");
            reveal_strlit(")");
            reveal_strlit(") & ");
            assert(next@ =~= conjoin(pq@, q@));
        }
        q = next;
        i = i - 1;
    }
    assert(all.take(0) =~= Seq::<Seq<char>>::empty());
    if q.as_str().is_empty() {
        return Err(PresetError::EmptyQuery);
    }
    Ok(q)
}

} // verus!
