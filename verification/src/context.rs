//! The variable context of one collection run: environment, variables and
//! data row, merged by priority.

use vstd::prelude::*;
use crate::collection::Collection;
use crate::strmap::StrMap;

verus! {

/// The value a declared variable starts with (`None` becomes `""`).
pub open spec fn declared_value(v: Option<String>) -> Seq<char> {
    match v {
        Some(s) => s@,
        None => Seq::empty(),
    }
}

/// The variables declared by `decls`, a later declaration of a name replacing
/// an earlier one.
pub open spec fn declared_map(decls: Seq<(String, Option<String>)>) -> Map<Seq<char>, Seq<char>>
    decreases decls.len(),
{
    if decls.len() == 0 {
        Map::empty()
    } else {
        declared_map(decls.drop_last()).insert(decls.last().0@, declared_value(decls.last().1))
    }
}

/// The variable context of one run.
pub struct ExecutionContext {
    /// The collection's inline environment: lowest priority.
    pub environment: StrMap,
    /// Collection variables, which scripts may change: middle priority.
    pub variables: StrMap,
    /// The data row of a data-driven iteration: highest priority.
    pub data: StrMap,
}

/// The merge of the three layers: `data` over `variables` over `environment`.
pub open spec fn merged(
    environment: Map<Seq<char>, Seq<char>>,
    variables: Map<Seq<char>, Seq<char>>,
    data: Map<Seq<char>, Seq<char>>,
) -> Map<Seq<char>, Seq<char>> {
    environment.union_prefer_right(variables).union_prefer_right(data)
}

/// Builds the variable map of a collection's declarations.
pub fn declared_variables(decls: &Vec<(String, Option<String>)>) -> (m: StrMap)
    ensures
        m@ == declared_map(decls@),
{
    let mut m = StrMap::new();
    let mut i: usize = 0;
    while i < decls.len()
        invariant
            i <= decls@.len(),
            m@ == declared_map(decls@.take(i as int)),
        decreases decls@.len() - i,
    {
        let value = match &decls[i].1 {
            Some(v) => v.clone(),
            None => String::new(),
        };
        m.insert(decls[i].0.clone(), value);
        proof {
            assert(decls@.take(i + 1).drop_last() =~= decls@.take(i as int));
        }
        i = i + 1;
    }
    proof {
        assert(decls@.take(decls@.len() as int) =~= decls@);
    }
    m
}

impl ExecutionContext {
    /// A fresh context for `collection`, with an empty data layer.
    pub fn new(collection: &Collection) -> (c: ExecutionContext)
        ensures
            c.environment@ == collection.environment@,
            c.variables@ == declared_map(collection.variables@),
            c.data@ == Map::<Seq<char>, Seq<char>>::empty(),
    {
        ExecutionContext {
            environment: collection.environment.copy(),
            variables: declared_variables(&collection.variables),
            data: StrMap::new(),
        }
    }

    /// A context for `collection` whose data layer is `row`.
    pub fn new_with_data(collection: &Collection, row: &StrMap) -> (c: ExecutionContext)
        ensures
            c.environment@ == collection.environment@,
            c.variables@ == declared_map(collection.variables@),
            c.data@ == row@,
    {
        let mut ctx = Self::new(collection);
        ctx.data = row.copy();
        ctx
    }

    /// The flat variable map used for interpolation: a key in a higher layer
    /// shadows the same key in a lower one.
    pub fn resolve_all(&self) -> (m: StrMap)
        ensures
            m@ == merged(self.environment@, self.variables@, self.data@),
    {
        let mut m = self.environment.copy();
        m.extend(&self.variables);
        m.extend(&self.data);
        m
    }
}

/// Variable resolution priority: a key takes its data-row value when the row
/// has it, else its collection-variable value, else its environment value,
/// and is absent only when no layer has it.
pub proof fn law_resolution_priority(
    environment: Map<Seq<char>, Seq<char>>,
    variables: Map<Seq<char>, Seq<char>>,
    data: Map<Seq<char>, Seq<char>>,
    k: Seq<char>,
)
    ensures
        data.contains_key(k) ==> merged(environment, variables, data).contains_key(k)
            && merged(environment, variables, data)[k] == data[k],
        !data.contains_key(k) && variables.contains_key(k) ==> merged(environment, variables, data).contains_key(k)
            && merged(environment, variables, data)[k] == variables[k],
        !data.contains_key(k) && !variables.contains_key(k) && environment.contains_key(k)
            ==> merged(environment, variables, data).contains_key(k)
            && merged(environment, variables, data)[k] == environment[k],
        merged(environment, variables, data).contains_key(k) <==> (data.contains_key(k)
            || variables.contains_key(k) || environment.contains_key(k)),
{
}

} // verus!
