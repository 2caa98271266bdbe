use vstd::prelude::*;

use crate::errors::ParseError;
use crate::flags::Flags;
use crate::model::{
    add_value, bump_opt, decl_view, find_long_from, find_short_from, new_opt, register_step,
    view_opt_string, OptView, ScopeView,
};

verus! {

/// One registered option together with its result record.
pub struct OptEntry {
    pub long_name: Option<String>,
    pub short_name: Option<char>,
    pub description: Option<String>,
    pub flags: Flags,
    pub passed: usize,
    pub values: Vec<String>,
}

impl View for OptEntry {
    type V = OptView;

    open spec fn view(&self) -> OptView {
        OptView {
            long: view_opt_string(self.long_name),
            short: self.short_name,
            descr: view_opt_string(self.description),
            flags: self.flags,
            passed: self.passed as nat,
            values: self.values.deep_view(),
        }
    }
}

/// The views of a sequence of option entries.
pub open spec fn opts_view(v: Seq<OptEntry>) -> Seq<OptView> {
    v.map_values(|e: OptEntry| e@)
}

/// One scope's registry and result store: the options declared in it, in
/// registration order, with their occurrence counts and captured values.
pub struct LocalContext {
    description: String,
    opts: Vec<OptEntry>,
}

impl View for LocalContext {
    type V = ScopeView;

    closed spec fn view(&self) -> ScopeView {
        ScopeView { descr: self.description@, opts: opts_view(self.opts@) }
    }
}

impl LocalContext {
    /// An empty scope with the given usage text.
    pub fn new(description: &str) -> (lc: LocalContext)
        ensures
            lc@.descr == description@,
            lc@.opts == Seq::<OptView>::empty(),
    {
        let lc = LocalContext { description: description.to_owned(), opts: Vec::new() };
        proof {
            assert(lc@.opts =~= Seq::<OptView>::empty());
        }
        lc
    }

    /// The index of the first option with short name `c`, if any.
    pub(crate) fn find_short(&self, c: char) -> (r: Option<usize>)
        ensures
            match r {
                Some(j) => crate::model::find_short(self@.opts, c) == Some(j as int) && j
                    < self@.opts.len(),
                None => crate::model::find_short(self@.opts, c) is None,
            },
    {
        let mut i: usize = 0;
        while i < self.opts.len()
            invariant
                0 <= i <= self.opts.len(),
                find_short_from(self@.opts, c, 0) == find_short_from(self@.opts, c, i as int),
            decreases self.opts.len() - i,
        {
            let hit = match self.opts[i].short_name {
                Some(s) => s == c,
                None => false,
            };
            if hit {
                return Some(i);
            }
            i = i + 1;
        }
        None
    }

    /// The index of the first option with long name `name`, if any.
    pub(crate) fn find_long(&self, name: &String) -> (r: Option<usize>)
        ensures
            match r {
                Some(j) => crate::model::find_long(self@.opts, name@) == Some(j as int) && j
                    < self@.opts.len(),
                None => crate::model::find_long(self@.opts, name@) is None,
            },
    {
        let mut i: usize = 0;
        while i < self.opts.len()
            invariant
                0 <= i <= self.opts.len(),
                find_long_from(self@.opts, name@, 0) == find_long_from(
                    self@.opts,
                    name@,
                    i as int,
                ),
            decreases self.opts.len() - i,
        {
            let hit = match &self.opts[i].long_name {
                Some(l) => l.eq(name),
                None => false,
            };
            if hit {
                return Some(i);
            }
            i = i + 1;
        }
        None
    }

    /// Register one option in this scope, as `register_step` describes: reject
    /// a nameless or ill-formed declaration, then a name collision; otherwise
    /// append a fresh result record and hand back its slot index.
    pub(crate) fn add_option(
        &mut self,
        long: Option<&str>,
        short: Option<char>,
        descr: Option<&str>,
        flags: Flags,
    ) -> (r: Result<usize, ParseError>)
        ensures
            ({
                let step = register_step(old(self)@.opts, decl_view(long, short, descr, flags));
                &&& final(self)@.opts == step.opts
                &&& final(self)@.descr == old(self)@.descr
                &&& match (r, step.result) {
                    (Ok(j), Ok(i)) => j as int == i && j == old(self)@.opts.len(),
                    (Err(e), Err(ev)) => e@ == ev,
                    _ => false,
                }
            }),
    {
        let ok = match long {
            Some(l) => l.unicode_len() >= 2,
            None => short.is_some(),
        };
        if !ok {
            return Err(ParseError::InvalidDefinition);
        }
        let long_name: Option<String> = match long {
            Some(l) => Some(l.to_owned()),
            None => None,
        };
        if let Some(l) = &long_name {
            if self.find_long(l).is_some() {
                return Err(ParseError::DuplicateName);
            }
        }
        if let Some(c) = short {
            if self.find_short(c).is_some() {
                return Err(ParseError::DuplicateName);
            }
        }
        let description: Option<String> = match descr {
            Some(d) => Some(d.to_owned()),
            None => None,
        };
        let j = self.opts.len();
        self.opts.push(
            OptEntry {
                long_name,
                short_name: short,
                description,
                flags,
                passed: 0,
                values: Vec::new(),
            },
        );
        proof {
            let d = decl_view(long, short, descr, flags);
            assert(self@.opts =~~= old(self)@.opts.push(new_opt(d)));
        }
        Ok(j)
    }

    /// Record one more occurrence of option `j`.
    pub(crate) fn bump(&mut self, j: usize)
        requires
            j < old(self)@.opts.len(),
            old(self)@.opts[j as int].passed < usize::MAX,
        ensures
            final(self)@.descr == old(self)@.descr,
            final(self)@.opts == old(self)@.opts.update(j as int, bump_opt(old(self)@.opts[j as int])),
    {
        let mut e = self.opts.remove(j);
        e.passed = e.passed + 1;
        self.opts.insert(j, e);
        proof {
            assert(self@.opts =~= old(self)@.opts.update(
                j as int,
                bump_opt(old(self)@.opts[j as int]),
            ));
        }
    }

    /// Append one captured value to option `j`.
    pub(crate) fn push_value(&mut self, j: usize, v: String)
        requires
            j < old(self)@.opts.len(),
        ensures
            final(self)@.descr == old(self)@.descr,
            final(self)@.opts == old(self)@.opts.update(
                j as int,
                add_value(old(self)@.opts[j as int], v@),
            ),
    {
        let mut e = self.opts.remove(j);
        e.values.push(v);
        self.opts.insert(j, e);
        proof {
            assert(self@.opts =~~= old(self)@.opts.update(
                j as int,
                add_value(old(self)@.opts[j as int], v@),
            ));
        }
    }

    /// Remove and return the most recently captured value of option `j`.
    pub(crate) fn pop_value(&mut self, j: usize) -> (r: Option<String>)
        requires
            j < old(self)@.opts.len(),
        ensures
            final(self)@.descr == old(self)@.descr,
            ({
                let o = old(self)@.opts[j as int];
                match r {
                    Some(v) => {
                        &&& o.values.len() > 0
                        &&& v@ == o.values.last()
                        &&& final(self)@.opts == old(self)@.opts.update(
                            j as int,
                            (OptView { values: o.values.drop_last(), ..o }),
                        )
                    },
                    None => {
                        &&& o.values.len() == 0
                        &&& final(self)@.opts == old(self)@.opts
                    },
                }
            }),
    {
        let mut e = self.opts.remove(j);
        let r = e.values.pop();
        self.opts.insert(j, e);
        proof {
            let o = old(self)@.opts[j as int];
            match &r {
                Some(v) => {
                    assert(self@.opts =~~= old(self)@.opts.update(
                        j as int,
                        (OptView { values: o.values.drop_last(), ..o }),
                    ));
                },
                None => {
                    assert(self@.opts =~~= old(self)@.opts);
                },
            }
        }
        r
    }

    /// How many values option `j` has captured.
    pub(crate) fn value_len(&self, j: usize) -> (n: usize)
        requires
            j < self@.opts.len(),
        ensures
            n == self@.opts[j as int].values.len(),
    {
        self.opts[j].values.len()
    }

    /// The `i`th captured value of option `j`.
    pub(crate) fn value_at(&self, j: usize, i: usize) -> (v: String)
        requires
            j < self@.opts.len(),
            i < self@.opts[j as int].values.len(),
        ensures
            v@ == self@.opts[j as int].values[i as int],
    {
        let v = self.opts[j].values[i].clone();
        proof {
            assert(self@.opts[j as int].values[i as int] == self.opts@[j as int].values@[i as int]@);
        }
        v
    }

    /// The usage text this scope was declared with.
    pub fn description(&self) -> (d: &String)
        ensures
            d@ == self@.descr,
    {
        &self.description
    }

    /// The record of option `j`, for display: names, description and flags.
    pub fn option_at(&self, j: usize) -> (e: &OptEntry)
        requires
            j < self@.opts.len(),
        ensures
            e@ == self@.opts[j as int],
    {
        &self.opts[j]
    }

    /// How many options this scope holds.
    pub fn len(&self) -> (n: usize)
        ensures
            n == self@.opts.len(),
    {
        self.opts.len()
    }

    /// The occurrence count of option `j`.
    pub(crate) fn opt_passed(&self, j: usize) -> (n: usize)
        requires
            j < self@.opts.len(),
        ensures
            n == self@.opts[j as int].passed,
    {
        self.opts[j].passed
    }

    /// The flags of option `j`.
    pub(crate) fn opt_flags(&self, j: usize) -> (f: Flags)
        requires
            j < self@.opts.len(),
        ensures
            f == self@.opts[j as int].flags,
    {
        self.opts[j].flags
    }
}

} // verus!
