//! Which tools run one after the other.

use vstd::prelude::*;

use crate::external::write_set;

verus! {

/// Distinct names. They are shown as a set.
struct ToolNames {
    names: Vec<String>,
}

impl std::fmt::Debug for ToolNames {
    fn fmt(&self, formatter: &mut std::fmt::Formatter<'_>) -> (written: Result<
        (),
        std::fmt::Error,
    >) {
        write_set(formatter, &self.names)
    }
}

/// Host-selected tools that share one sequential execution lane per tool batch.
/// Names are matched exactly; include every supported alias in the same group.
#[derive(Debug)]
pub struct OrderedToolCalls {
    tool_names: ToolNames,
    max_calls: usize,
}

/// What an [`OrderedToolCalls`] holds.
pub struct OrderedToolCallsView {
    /// The names of the tools that share the lane.
    pub tool_names: Set<Seq<char>>,
    /// How many calls of one batch the lane takes.
    pub max_calls: nat,
}

/// The names in a list.
pub open spec fn name_set(names: Seq<String>) -> Set<Seq<char>> {
    names.map_values(|name: String| name@).to_set()
}

impl View for OrderedToolCalls {
    type V = OrderedToolCallsView;

    closed spec fn view(&self) -> OrderedToolCallsView {
        OrderedToolCallsView {
            tool_names: name_set(self.tool_names.names@),
            max_calls: self.max_calls as nat,
        }
    }
}

proof fn lemma_name_set_contains(names: Seq<String>, name: Seq<char>)
    ensures
        name_set(names).contains(name) <==> exists|i: int|
            0 <= i < names.len() && (#[trigger] names[i])@ == name,
{
    let views = names.map_values(|name: String| name@);
    if name_set(names).contains(name) {
        let i = choose|i: int| 0 <= i < views.len() && views[i] == name;
        assert(names[i]@ == name);
    }
    if exists|i: int| 0 <= i < names.len() && (#[trigger] names[i])@ == name {
        let i = choose|i: int| 0 <= i < names.len() && (#[trigger] names[i])@ == name;
        assert(views[i] == name);
    }
}

/// Whether a list of names holds the given one.
fn list_contains(names: &Vec<String>, name: &str) -> (found: bool)
    ensures
        found == name_set(names@).contains(name@),
{
    let wanted = name.to_owned();
    for i in 0..names.len()
        invariant
            wanted@ == name@,
            forall|j: int| 0 <= j < i ==> (#[trigger] names@[j])@ != name@,
    {
        if names[i] == wanted {
            proof {
                lemma_name_set_contains(names@, name@);
            }
            return true;
        }
    }
    proof {
        lemma_name_set_contains(names@, name@);
    }
    false
}

impl OrderedToolCalls {
    #[verifier::type_invariant]
    spec fn well_formed(self) -> bool {
        &&& self.max_calls > 0
        &&& self.tool_names.names@.map_values(|name: String| name@).no_duplicates()
    }

    /// Lets the named tools share one lane that takes `max_calls` calls of a
    /// batch. A name that is given twice counts once.
    pub fn new(tool_names: Vec<String>, max_calls: usize) -> (policy: OrderedToolCalls)
        requires
            max_calls > 0,
        ensures
            policy@ == (OrderedToolCallsView {
                tool_names: name_set(tool_names@),
                max_calls: max_calls as nat,
            }),
            forall|name: Seq<char>| #[trigger]
                policy@.tool_names.contains(name) <==> exists|i: int|
                    0 <= i < tool_names@.len() && (#[trigger] tool_names@[i])@ == name,
            policy@.max_calls == max_calls,
    {
        let mut distinct: Vec<String> = Vec::new();
        for i in 0..tool_names.len()
            invariant
                name_set(distinct@) == name_set(tool_names@.take(i as int)),
                distinct@.map_values(|name: String| name@).no_duplicates(),
        {
            let ghost before = distinct@;
            let known = list_contains(&distinct, tool_names[i].as_str());
            if !known {
                distinct.push(tool_names[i].clone());
            }
            proof {
                let taken = tool_names@.take(i as int);
                assert(tool_names@.take(i + 1) =~= taken.push(tool_names@[i as int]));
                lemma_name_set_push(taken, tool_names@[i as int]);
                if known {
                    assert(name_set(taken).insert(tool_names@[i as int]@) =~= name_set(taken));
                } else {
                    lemma_name_set_push(before, distinct@.last());
                    assert(distinct@ =~= before.push(distinct@.last()));
                    lemma_distinct_push(before, distinct@.last());
                }
            }
        }
        assert(tool_names@.take(tool_names@.len() as int) =~= tool_names@);
        proof {
            assert forall|name: Seq<char>| #[trigger]
                name_set(tool_names@).contains(name) <==> exists|i: int|
                    0 <= i < tool_names@.len() && (#[trigger] tool_names@[i])@ == name by {
                lemma_name_set_contains(tool_names@, name);
            }
        }
        OrderedToolCalls { tool_names: ToolNames { names: distinct }, max_calls }
    }

    /// Whether the named tool shares the lane.
    pub fn contains(&self, tool_name: &str) -> (found: bool)
        ensures
            found == self@.tool_names.contains(tool_name@),
    {
        list_contains(&self.tool_names.names, tool_name)
    }

    /// How many calls of one batch the lane takes.
    pub fn max_calls(&self) -> (max_calls: usize)
        ensures
            max_calls == self@.max_calls,
            max_calls > 0,
    {
        proof {
            use_type_invariant(self);
        }
        self.max_calls
    }
}

impl Clone for OrderedToolCalls {
    fn clone(&self) -> (copy: OrderedToolCalls)
        ensures
            copy@ == self@,
    {
        proof {
            use_type_invariant(self);
        }
        let names = self.tool_names.names.clone();
        assert(names@ =~= self.tool_names.names@);
        OrderedToolCalls { tool_names: ToolNames { names }, max_calls: self.max_calls }
    }
}

/// The tools of a lane are those that were named, each by its exact name, and no
/// others.
pub proof fn law_names_are_matched_exactly(names: Seq<String>, name: Seq<char>)
    ensures
        name_set(names).contains(name) <==> exists|i: int|
            0 <= i < names.len() && (#[trigger] names[i])@ == name,
{
    lemma_name_set_contains(names, name);
}

proof fn lemma_name_set_push(names: Seq<String>, name: String)
    ensures
        name_set(names.push(name)) == name_set(names).insert(name@),
{
    assert forall|other: Seq<char>|
        name_set(names.push(name)).contains(other) == name_set(names).insert(name@).contains(
            other,
        ) by {
        lemma_name_set_contains(names.push(name), other);
        lemma_name_set_contains(names, other);
        if name_set(names).contains(other) {
            let i = choose|i: int| 0 <= i < names.len() && (#[trigger] names[i])@ == other;
            assert(names.push(name)[i]@ == other);
        }
        assert(names.push(name)[names.len() as int] == name);
        if name_set(names.push(name)).contains(other) && other != name@ {
            let i = choose|i: int|
                0 <= i < names.push(name).len() && (#[trigger] names.push(name)[i])@ == other;
            assert(names[i]@ == other);
        }
    }
    assert(name_set(names.push(name)) =~= name_set(names).insert(name@));
}

proof fn lemma_distinct_push(names: Seq<String>, name: String)
    requires
        names.map_values(|name: String| name@).no_duplicates(),
        !name_set(names).contains(name@),
    ensures
        names.push(name).map_values(|name: String| name@).no_duplicates(),
{
    let before = names.map_values(|name: String| name@);
    let after = names.push(name).map_values(|name: String| name@);
    assert(after =~= before.push(name@));
    assert forall|i: int, j: int| 0 <= i < after.len() && 0 <= j < after.len() && i != j implies after[i]
        != after[j] by {
        lemma_name_set_contains(names, name@);
        if i < names.len() {
            assert(names[i]@ == after[i]);
        }
        if j < names.len() {
            assert(names[j]@ == after[j]);
        }
    }
}

} // verus!
