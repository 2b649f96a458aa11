//! The runtime parameter registry.

use vstd::prelude::*;

verus! {

/// The outcome of setting a runtime parameter that the preset does not expose.
#[derive(Clone, Copy, Debug, PartialEq, Eq, Structural)]
pub enum ParameterError {
    UnknownParameter,
}

/// Pairwise-distinct name sequences.
pub open spec fn distinct_names(s: Seq<Seq<char>>) -> bool {
    forall|i: int, j: int| #![trigger s[i], s[j]] 0 <= i < j < s.len() ==> s[i] != s[j]
}

/// First position of `name` in `names`, or `-1` when it does not occur.
pub open spec fn spec_find_name(names: Seq<Seq<char>>, name: Seq<char>) -> int
    decreases names.len(),
{
    if names.len() == 0 {
        -1
    } else if names[0] == name {
        0
    } else {
        let rest = spec_find_name(names.drop_first(), name);
        if rest == -1 {
            -1
        } else {
            rest + 1
        }
    }
}

pub proof fn lemma_find_name_range(names: Seq<Seq<char>>, name: Seq<char>)
    ensures
        -1 <= spec_find_name(names, name) < names.len(),
        spec_find_name(names, name) >= 0 ==> names[spec_find_name(names, name)] == name,
    decreases names.len(),
{
    if names.len() > 0 && names[0] != name {
        lemma_find_name_range(names.drop_first(), name);
    }
}

pub proof fn lemma_find_name_at(names: Seq<Seq<char>>, name: Seq<char>, i: int)
    requires
        0 <= i < names.len(),
        names[i] == name,
        forall|j: int| 0 <= j < i ==> names[j] != name,
    ensures
        spec_find_name(names, name) == i,
    decreases i,
{
    if i > 0 {
        lemma_find_name_at(names.drop_first(), name, i - 1);
    }
}

pub proof fn lemma_find_name_absent(names: Seq<Seq<char>>, name: Seq<char>)
    requires
        forall|j: int| 0 <= j < names.len() ==> names[j] != name,
    ensures
        spec_find_name(names, name) == -1,
    decreases names.len(),
{
    if names.len() > 0 {
        lemma_find_name_absent(names.drop_first(), name);
    }
}

/// The mutable runtime state of a chain: the user parameters seeded from the
/// preset's defaults, and the number of enabled passes. Parameter values are
/// carried as 32-bit scalar words.
pub struct RuntimeParameters {
    names: Vec<String>,
    values: Vec<u32>,
    passes_enabled: usize,
    total_passes: usize,
}

impl RuntimeParameters {
    /// The parameter names, in preset order.
    pub closed spec fn names_view(&self) -> Seq<Seq<char>> {
        self.names@.map_values(|s: String| s@)
    }

    /// The parameter values, in preset order.
    pub closed spec fn values_view(&self) -> Seq<u32> {
        self.values@
    }

    /// How many of the chain's passes run each frame.
    pub closed spec fn enabled_passes(&self) -> nat {
        self.passes_enabled as nat
    }

    /// How many passes the chain was built with.
    pub closed spec fn total_passes(&self) -> nat {
        self.total_passes as nat
    }

    /// Whether `name` names a parameter of this registry.
    pub open spec fn knows(&self, name: Seq<char>) -> bool {
        spec_find_name(self.names_view(), name) >= 0
    }

    /// The value word of a known parameter.
    pub open spec fn value_of(&self, name: Seq<char>) -> u32 {
        self.values_view()[spec_find_name(self.names_view(), name)]
    }

    /// One value slot per name, names pairwise distinct, and the enabled
    /// count never above the built count.
    pub closed spec fn wf(&self) -> bool {
        &&& self.values@.len() == self.names@.len()
        &&& self.passes_enabled <= self.total_passes
        &&& distinct_names(self.names_view())
    }

    /// The enabled count never exceeds the built count.
    pub proof fn lemma_wf_bounds(&self)
        requires
            self.wf(),
        ensures
            self.enabled_passes() <= self.total_passes(),
            self.values_view().len() == self.names_view().len(),
    {
    }

    /// Seed a registry: parameter `i` starts at `defaults[i]`, and every
    /// pass of the chain starts enabled.
    pub fn new(names: Vec<String>, defaults: Vec<u32>, total_passes: usize) -> (r:
        RuntimeParameters)
        requires
            names@.len() == defaults@.len(),
            distinct_names(names@.map_values(|s: String| s@)),
        ensures
            r.wf(),
            r.names_view() == names@.map_values(|s: String| s@),
            r.values_view() == defaults@,
            r.enabled_passes() == total_passes,
            r.total_passes() == total_passes,
    {
        RuntimeParameters {
            names,
            values: defaults,
            passes_enabled: total_passes,
            total_passes,
        }
    }

    /// Position of `name`, scanning in preset order.
    fn find(&self, name: &str) -> (r: Option<usize>)
        requires
            self.wf(),
        ensures
            match r {
                Some(i) => i < self.names_view().len() && spec_find_name(
                    self.names_view(),
                    name@,
                ) == i,
                None => spec_find_name(self.names_view(), name@) == -1,
            },
    {
        let key: String = name.to_owned();
        let n = self.names.len();
        let mut i: usize = 0;
        while i < n
            invariant
                self.wf(),
                n == self.names_view().len(),
                i <= n,
                key@ == name@,
                forall|j: int| 0 <= j < i ==> self.names_view()[j] != name@,
            decreases n - i,
        {
            if self.names[i] == key {
                proof {
                    lemma_find_name_at(self.names_view(), name@, i as int);
                }
                return Some(i);
            }
            i = i + 1;
        }
        proof {
            lemma_find_name_absent(self.names_view(), name@);
        }
        None
    }

    /// The current value word of `name`, or `None` when the preset exposes
    /// no parameter of that name.
    pub fn get(&self, name: &str) -> (r: Option<u32>)
        requires
            self.wf(),
        ensures
            r == if self.knows(name@) {
                Some(self.value_of(name@))
            } else {
                None::<u32>
            },
    {
        match self.find(name) {
            Some(i) => Some(self.values[i]),
            None => None,
        }
    }

    /// Set a known parameter's value word. An unknown name is an error and
    /// changes nothing: setting never creates a parameter.
    pub fn set(&mut self, name: &str, value: u32) -> (r: Result<(), ParameterError>)
        requires
            old(self).wf(),
        ensures
            final(self).wf(),
            final(self).names_view() == old(self).names_view(),
            final(self).enabled_passes() == old(self).enabled_passes(),
            final(self).total_passes() == old(self).total_passes(),
            if old(self).knows(name@) {
                r is Ok && final(self).values_view() == old(self).values_view().update(
                    spec_find_name(old(self).names_view(), name@),
                    value,
                )
            } else {
                r == Err::<(), ParameterError>(ParameterError::UnknownParameter)
                    && final(self).values_view() == old(self).values_view()
            },
    {
        match self.find(name) {
            Some(i) => {
                self.values[i] = value;
                Ok(())
            },
            None => Err(ParameterError::UnknownParameter),
        }
    }

    /// A copy of every value word, as the frame driver snapshots them at the
    /// start of a frame.
    pub fn snapshot(&self) -> (r: Vec<u32>)
        ensures
            r@ == self.values_view(),
    {
        let n = self.values.len();
        let mut out: Vec<u32> = Vec::new();
        let mut i: usize = 0;
        while i < n
            invariant
                n == self.values@.len(),
                i <= n,
                out@ == self.values@.subrange(0, i as int),
            decreases n - i,
        {
            let v = self.values[i];
            out.push(v);
            proof {
                assert(out@ =~= self.values@.subrange(0, i + 1));
            }
            i = i + 1;
        }
        proof {
            assert(out@ =~= self.values@);
        }
        out
    }

    /// Set how many passes run, silently clamped to the number of passes the
    /// chain was built with.
    pub fn set_enabled_pass_count(&mut self, count: usize)
        requires
            old(self).wf(),
        ensures
            final(self).wf(),
            final(self).names_view() == old(self).names_view(),
            final(self).values_view() == old(self).values_view(),
            final(self).total_passes() == old(self).total_passes(),
            final(self).enabled_passes() == if count as nat <= old(self).total_passes() {
                count as nat
            } else {
                old(self).total_passes()
            },
    {
        if count <= self.total_passes {
            self.passes_enabled = count;
        } else {
            self.passes_enabled = self.total_passes;
        }
    }

    /// How many passes currently run each frame.
    pub fn get_enabled_pass_count(&self) -> (r: usize)
        ensures
            r == self.enabled_passes(),
    {
        self.passes_enabled
    }
}

} // verus!
