use vstd::prelude::*;

use crate::error::Error;
use crate::number::{Number, Ratio, ratio_lt};

verus! {

/// A named entity of the environment: a constant, or a callable of fixed arity.
#[derive(Clone, Copy, Debug)]
pub enum Variable {
    /// A constant; it takes no argument.
    Constant(Number),
    /// The largest of its arguments; the field is the arity.
    Max(u32),
    /// The smallest of its arguments; the field is the arity.
    Min(u32),
}

/// The largest ratio of a non-empty sequence; of equal ones, the earliest.
pub open spec fn seq_max(s: Seq<Ratio>) -> Ratio
    decreases s.len(),
{
    if s.len() <= 1 {
        s[0]
    } else {
        let m = seq_max(s.drop_last());
        if ratio_lt(m, s.last()) {
            s.last()
        } else {
            m
        }
    }
}

/// The smallest ratio of a non-empty sequence; of equal ones, the earliest.
pub open spec fn seq_min(s: Seq<Ratio>) -> Ratio
    decreases s.len(),
{
    if s.len() <= 1 {
        s[0]
    } else {
        let m = seq_min(s.drop_last());
        if ratio_lt(s.last(), m) {
            s.last()
        } else {
            m
        }
    }
}

pub open spec fn views(s: Seq<Number>) -> Seq<Ratio> {
    s.map_values(|x: Number| x@)
}

impl Variable {
    pub open spec fn spec_argc(self) -> nat {
        match self {
            Variable::Constant(_) => 0,
            Variable::Max(n) => n as nat,
            Variable::Min(n) => n as nat,
        }
    }

    /// What `calc` returns for the arguments `args`, in left-to-right order.
    pub open spec fn calc_spec(self, args: Seq<Ratio>) -> Result<Ratio, Error> {
        if args.len() != self.spec_argc() {
            Err(Error::ArityMismatch)
        } else {
            match self {
                Variable::Constant(c) => Ok(c@),
                Variable::Max(n) => if n == 0 {
                    Err(Error::ArithmeticDomain)
                } else {
                    Ok(seq_max(args))
                },
                Variable::Min(n) => if n == 0 {
                    Err(Error::ArithmeticDomain)
                } else {
                    Ok(seq_min(args))
                },
            }
        }
    }

    /// The number of arguments the variable takes.
    pub fn argc(&self) -> (r: u32)
        ensures
            r as nat == self.spec_argc(),
    {
        match self {
            Variable::Constant(_) => 0,
            Variable::Max(n) => *n,
            Variable::Min(n) => *n,
        }
    }

    /// Applies the variable to `args`, taken in left-to-right order.
    pub fn calc(&self, args: &Vec<Number>) -> (r: Result<Number, Error>)
        ensures
            r matches Ok(x) ==> self.calc_spec(views(args@)) == Ok::<Ratio, Error>(x@),
            r matches Err(e) ==> self.calc_spec(views(args@)) == Err::<Ratio, Error>(e),
    {
        if args.len() != self.argc() as usize {
            return Err(Error::ArityMismatch);
        }
        match self {
            Variable::Constant(c) => Ok(*c),
            Variable::Max(_) | Variable::Min(_) => {
                if args.len() == 0 {
                    return Err(Error::ArithmeticDomain);
                }
                let want_max = match self {
                    Variable::Max(_) => true,
                    _ => false,
                };
                let mut best: Number = args[0];
                let mut i: usize = 1;
                proof {
                    assert(views(args@).subrange(0, 1).drop_last().len() == 0);
                }
                while i < args.len()
                    invariant
                        1 <= i <= args.len(),
                        want_max <==> self matches Variable::Max(_),
                        best@ == (if want_max {
                            seq_max(views(args@).subrange(0, i as int))
                        } else {
                            seq_min(views(args@).subrange(0, i as int))
                        }),
                    decreases args.len() - i,
                {
                    let next = args[i];
                    proof {
                        let s = views(args@).subrange(0, i as int + 1);
                        assert(s.drop_last() =~= views(args@).subrange(0, i as int));
                        assert(s.last() == next@);
                    }
                    if want_max {
                        if best.is_less_than(&next) {
                            best = next;
                        }
                    } else if next.is_less_than(&best) {
                        best = next;
                    }
                    i = i + 1;
                }
                proof {
                    assert(views(args@).subrange(0, args.len() as int) =~= views(args@));
                }
                Ok(best)
            },
        }
    }
}

/// A spec-level lookup in a list of bindings: the last binding of `name` wins.
pub open spec fn lookup_in(entries: Seq<(String, Variable)>, name: Seq<char>) -> Option<Variable>
    decreases entries.len(),
{
    if entries.len() == 0 {
        None
    } else if entries.last().0@ == name {
        Some(entries.last().1)
    } else {
        lookup_in(entries.drop_last(), name)
    }
}

/// Names bound to variables.
pub struct Environment {
    entries: Vec<(String, Variable)>,
}

impl Environment {
    /// The variable bound to `name`, if any.
    pub closed spec fn lookup(&self, name: Seq<char>) -> Option<Variable> {
        lookup_in(self.entries@, name)
    }

    /// An environment that binds nothing.
    pub fn new() -> (r: Environment)
        ensures
            forall|k: Seq<char>| r.lookup(k) == None::<Variable>,
    {
        Environment { entries: Vec::new() }
    }

    /// Binds `name` to `var`, replacing an earlier binding of the same name.
    pub fn insert(&mut self, name: String, var: Variable)
        ensures
            forall|k: Seq<char>|
                #[trigger] final(self).lookup(k) == if k == name@ {
                    Some(var)
                } else {
                    old(self).lookup(k)
                },
    {
        let ghost before = self.entries@;
        self.entries.push((name, var));
        proof {
            assert(self.entries@.drop_last() =~= before);
        }
    }

    /// The variable bound to `name`, if any.
    pub fn get(&self, name: &String) -> (r: Option<Variable>)
        ensures
            r == self.lookup(name@),
    {
        let mut i: usize = self.entries.len();
        proof {
            assert(self.entries@.subrange(0, i as int) =~= self.entries@);
        }
        while i > 0
            invariant
                i <= self.entries@.len(),
                lookup_in(self.entries@, name@) == lookup_in(self.entries@.subrange(0, i as int), name@),
            decreases i,
        {
            let entry = &self.entries[i - 1];
            proof {
                let s = self.entries@.subrange(0, i as int);
                assert(s.drop_last() =~= self.entries@.subrange(0, i - 1));
            }
            if entry.0 == *name {
                return Some(entry.1);
            }
            i = i - 1;
        }
        None
    }
}

} // verus!
