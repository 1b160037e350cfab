use vstd::prelude::*;

verus! {

/// What a rule does to the start-condition stack when it matches.
pub enum StateChange {
    /// Leaves the stack as it is.
    Keep,
    /// Pushes the named start condition.
    Push(String),
    /// Pops the top start condition (an empty stack stays empty).
    Pop,
}

/// The action run when a rule matches.
pub struct Action {
    /// The token type to emit; the empty name discards the match.
    pub token_type: String,
    /// The change made to the start-condition stack.
    pub state_change: StateChange,
    /// Text that replaces the matched text in the emitted token.
    pub replacement: Option<String>,
}

/// A pattern with its action.
pub struct Rule {
    /// A regular expression; only a match that begins at the cursor counts.
    pub pattern: String,
    pub action: Action,
}

/// A start condition and the indices of the rules active in it, by priority.
pub struct StartCondition {
    pub name: String,
    pub rules: Vec<usize>,
}

/// The numeric kind of a token type.
pub struct TokenKind {
    pub name: String,
    pub kind: i32,
}

/// The static rule table of a lexer.
pub struct RuleTable {
    pub rules: Vec<Rule>,
    pub conditions: Vec<StartCondition>,
    pub kinds: Vec<TokenKind>,
}

/// The start condition on an empty stack.
pub open spec fn initial_state() -> Seq<char> {
    seq!['I', 'N', 'I', 'T', 'I', 'A', 'L']
}

/// The token type of the end-of-stream token.
pub open spec fn eof_type() -> Seq<char> {
    seq!['$']
}

impl RuleTable {
    /// Every rule index listed under a start condition names a rule, and no
    /// start condition or token type is named twice.
    pub open spec fn wf(&self) -> bool {
        &&& forall|c: int, k: int|
            0 <= c < self.conditions@.len() && 0 <= k < self.conditions@[c].rules@.len()
                ==> #[trigger] self.conditions@[c].rules@[k] < self.rules@.len()
        &&& forall|a: int, b: int|
            0 <= a < b < self.conditions@.len() ==> #[trigger] self.conditions@[a].name@
                != #[trigger] self.conditions@[b].name@
        &&& forall|a: int, b: int|
            0 <= a < b < self.kinds@.len() ==> #[trigger] self.kinds@[a].name@
                != #[trigger] self.kinds@[b].name@
    }

    /// The first start condition with the given name.
    pub open spec fn condition_of(&self, name: Seq<char>) -> Option<int> {
        first_condition(self.conditions@, name, 0)
    }

    /// The kind that the first entry with the given name maps to.
    pub open spec fn kind_of(&self, name: Seq<char>) -> Option<i32> {
        first_kind(self.kinds@, name, 0)
    }

    /// Tests that every rule index under a start condition names a rule and
    /// that no name is used twice.
    pub fn is_well_formed(&self) -> (r: bool)
        ensures
            r == self.wf(),
    {
        if !self.indices_in_range() {
            return false;
        }
        let mut b: usize = 0;
        while b < self.conditions.len()
            invariant
                b <= self.conditions@.len(),
                forall|a: int, b2: int|
                    0 <= a < b2 < b ==> #[trigger] self.conditions@[a].name@
                        != #[trigger] self.conditions@[b2].name@,
            decreases self.conditions@.len() - b,
        {
            let mut a: usize = 0;
            while a < b
                invariant
                    a <= b < self.conditions@.len(),
                    forall|a2: int, b2: int|
                        0 <= a2 < b2 < b ==> #[trigger] self.conditions@[a2].name@
                            != #[trigger] self.conditions@[b2].name@,
                    forall|a2: int| 0 <= a2 < a ==> #[trigger] self.conditions@[a2].name@
                        != self.conditions@[b as int].name@,
                decreases b - a,
            {
                if self.conditions[a].name == self.conditions[b].name {
                    return false;
                }
                a = a + 1;
            }
            b = b + 1;
        }
        let mut b: usize = 0;
        while b < self.kinds.len()
            invariant
                b <= self.kinds@.len(),
                self.indices_in_range_spec(),
                forall|a: int, b2: int|
                    0 <= a < b2 < self.conditions@.len() ==> #[trigger] self.conditions@[a].name@
                        != #[trigger] self.conditions@[b2].name@,
                forall|a: int, b2: int|
                    0 <= a < b2 < b ==> #[trigger] self.kinds@[a].name@ != #[trigger] self.kinds@[b2].name@,
            decreases self.kinds@.len() - b,
        {
            let mut a: usize = 0;
            while a < b
                invariant
                    a <= b < self.kinds@.len(),
                    forall|a2: int, b2: int|
                        0 <= a2 < b2 < b ==> #[trigger] self.kinds@[a2].name@
                            != #[trigger] self.kinds@[b2].name@,
                    forall|a2: int| 0 <= a2 < a ==> #[trigger] self.kinds@[a2].name@
                        != self.kinds@[b as int].name@,
                decreases b - a,
            {
                if self.kinds[a].name == self.kinds[b].name {
                    return false;
                }
                a = a + 1;
            }
            b = b + 1;
        }
        true
    }

    /// Every rule index listed under a start condition names a rule.
    pub open spec fn indices_in_range_spec(&self) -> bool {
        forall|c: int, k: int|
            0 <= c < self.conditions@.len() && 0 <= k < self.conditions@[c].rules@.len()
                ==> #[trigger] self.conditions@[c].rules@[k] < self.rules@.len()
    }

    /// Tests that every rule index listed under a start condition names a rule.
    fn indices_in_range(&self) -> (r: bool)
        ensures
            r == self.indices_in_range_spec(),
    {
        let mut c: usize = 0;
        while c < self.conditions.len()
            invariant
                c <= self.conditions@.len(),
                forall|c2: int, k: int|
                    0 <= c2 < c && 0 <= k < self.conditions@[c2].rules@.len()
                        ==> #[trigger] self.conditions@[c2].rules@[k] < self.rules@.len(),
            decreases self.conditions@.len() - c,
        {
            let rules = &self.conditions[c].rules;
            let mut k: usize = 0;
            while k < rules.len()
                invariant
                    c < self.conditions@.len(),
                    *rules == self.conditions@[c as int].rules,
                    k <= rules@.len(),
                    forall|k2: int| 0 <= k2 < k ==> #[trigger] rules@[k2] < self.rules@.len(),
                decreases rules@.len() - k,
            {
                if rules[k] >= self.rules.len() {
                    return false;
                }
                k = k + 1;
            }
            c = c + 1;
        }
        true
    }

    /// Finds the first start condition with the given name.
    pub fn find_condition(&self, name: &String) -> (r: Option<usize>)
        ensures
            r matches Some(c) ==> self.condition_of(name@) == Some(c as int) && c < self.conditions@.len(),
            r is None ==> self.condition_of(name@) is None,
    {
        let mut c: usize = 0;
        while c < self.conditions.len()
            invariant
                c <= self.conditions@.len(),
                self.condition_of(name@) == first_condition(self.conditions@, name@, c as int),
            decreases self.conditions@.len() - c,
        {
            if self.conditions[c].name == *name {
                return Some(c);
            }
            c = c + 1;
        }
        None
    }

    /// Finds the kind of a token type.
    pub fn find_kind(&self, name: &String) -> (r: Option<i32>)
        ensures
            r == self.kind_of(name@),
    {
        let mut k: usize = 0;
        while k < self.kinds.len()
            invariant
                k <= self.kinds@.len(),
                self.kind_of(name@) == first_kind(self.kinds@, name@, k as int),
            decreases self.kinds@.len() - k,
        {
            if self.kinds[k].name == *name {
                return Some(self.kinds[k].kind);
            }
            k = k + 1;
        }
        None
    }
}

/// The index of the first condition at or after `from` named `name`.
pub open spec fn first_condition(conds: Seq<StartCondition>, name: Seq<char>, from: int) -> Option<
    int,
>
    decreases conds.len() - from,
{
    if from < 0 || from >= conds.len() {
        None
    } else if conds[from].name@ == name {
        Some(from)
    } else {
        first_condition(conds, name, from + 1)
    }
}

/// The kind of the first entry at or after `from` named `name`.
pub open spec fn first_kind(kinds: Seq<TokenKind>, name: Seq<char>, from: int) -> Option<i32>
    decreases kinds.len() - from,
{
    if from < 0 || from >= kinds.len() {
        None
    } else if kinds[from].name@ == name {
        Some(kinds[from].kind)
    } else {
        first_kind(kinds, name, from + 1)
    }
}

} // verus!
