use vstd::prelude::*;

use crate::parser::{expr_view, ExprView, Expression, Literal, LiteralView, Operand};

verus! {

/// An expression whose identifiers have been replaced by the values bound
/// to them. A value is the bit pattern of an IEEE-754 double.
#[derive(Debug, PartialEq)]
pub enum Resolved {
    Value(u64),
    Literal(Literal),
    Combination { operand: Operand, args: Vec<Resolved> },
}

/// What a resolved expression means.
pub enum ResolvedView {
    Value(u64),
    Literal(LiteralView),
    Combination(Operand, Seq<ResolvedView>),
}

pub open spec fn resolved_view(r: Resolved) -> ResolvedView
    decreases r,
{
    match r {
        Resolved::Value(v) => ResolvedView::Value(v),
        Resolved::Literal(l) => ResolvedView::Literal(l@),
        Resolved::Combination { operand, args } => ResolvedView::Combination(
            operand,
            Seq::new(
                args.len() as nat,
                |i: int|
                    if 0 <= i < args.len() {
                        resolved_view(args[i])
                    } else {
                        ResolvedView::Value(0)
                    },
            ),
        ),
    }
}

pub open spec fn resolved_seq_view(rs: Seq<Resolved>) -> Seq<ResolvedView> {
    rs.map_values(|r: Resolved| resolved_view(r))
}

/// A failure while evaluating: a name that nothing was bound to.
#[derive(Debug, Clone, PartialEq)]
pub enum EvalError {
    UndefinedVariable(String),
}

/// The expression `e` with each identifier replaced by its value in `env`;
/// or the first identifier, from the left, that `env` does not bind.
pub open spec fn resolve_spec(e: ExprView, env: Map<Seq<char>, u64>) -> Result<
    ResolvedView,
    Seq<char>,
>
    decreases e,
{
    match e {
        ExprView::Identifier(name) => if env.contains_key(name) {
            Ok(ResolvedView::Value(env[name]))
        } else {
            Err(name)
        },
        ExprView::Literal(l) => Ok(ResolvedView::Literal(l)),
        ExprView::Combination(op, args) => match resolve_all_spec(args, env) {
            Ok(rs) => Ok(ResolvedView::Combination(op, rs)),
            Err(name) => Err(name),
        },
    }
}

/// Each of `args` resolved in order; the first failure, if any.
pub open spec fn resolve_all_spec(args: Seq<ExprView>, env: Map<Seq<char>, u64>) -> Result<
    Seq<ResolvedView>,
    Seq<char>,
>
    decreases args,
{
    if args.len() == 0 {
        Ok(Seq::empty())
    } else {
        match resolve_all_spec(args.drop_last(), env) {
            Ok(rs) => match resolve_spec(args.last(), env) {
                Ok(r) => Ok(rs.push(r)),
                Err(name) => Err(name),
            },
            Err(name) => Err(name),
        }
    }
}

/// The state of one session: the value last bound to each name.
pub struct Interpreter {
    names: Vec<String>,
    values: Vec<u64>,
    env: Ghost<Map<Seq<char>, u64>>,
}

impl View for Interpreter {
    type V = Map<Seq<char>, u64>;

    closed spec fn view(&self) -> Map<Seq<char>, u64> {
        self.env@
    }
}

impl Interpreter {
    /// The names are distinct, and each is bound to the value beside it.
    pub closed spec fn wf(&self) -> bool {
        &&& self.names@.len() == self.values@.len()
        &&& forall|i: int, j: int|
            0 <= i < j < self.names@.len() ==> self.names@[i]@ != self.names@[j]@
        &&& forall|i: int|
            0 <= i < self.names@.len() ==> #[trigger] self.env@.contains_key(self.names@[i]@)
                && self.env@[self.names@[i]@] == self.values@[i]
        &&& forall|k: Seq<char>|
            #[trigger] self.env@.contains_key(k) ==> exists|i: int|
                0 <= i < self.names@.len() && self.names@[i]@ == k
    }

    /// A session in which no name is bound.
    pub fn new() -> (r: Interpreter)
        ensures
            r.wf(),
            r@ == Map::<Seq<char>, u64>::empty(),
    {
        Interpreter { names: Vec::new(), values: Vec::new(), env: Ghost(Map::empty()) }
    }

    fn find(&self, name: &String) -> (r: Option<usize>)
        requires
            self.wf(),
        ensures
            match r {
                Some(i) => i < self.names@.len() && self.names@[i as int]@ == name@,
                None => !self@.contains_key(name@),
            },
    {
        let mut i: usize = 0;
        while i < self.names.len()
            invariant
                self.wf(),
                i <= self.names@.len(),
                forall|j: int| 0 <= j < i ==> self.names@[j]@ != name@,
            decreases self.names@.len() - i,
        {
            if self.names[i] == *name {
                return Some(i);
            }
            i = i + 1;
        }
        None
    }

    /// The value bound to `name`, if any.
    pub fn lookup(&self, name: &String) -> (r: Option<u64>)
        requires
            self.wf(),
        ensures
            r == (if self@.contains_key(name@) {
                Some(self@[name@])
            } else {
                None
            }),
    {
        match self.find(name) {
            Some(i) => Some(self.values[i]),
            None => None,
        }
    }

    /// Binds `name` to `value`, in place of any earlier binding of it.
    pub fn bind(&mut self, name: String, value: u64)
        requires
            old(self).wf(),
        ensures
            final(self).wf(),
            final(self)@ == old(self)@.insert(name@, value),
    {
        let ghost key = name@;
        let ghost new_env = self.env@.insert(key, value);
        match self.find(&name) {
            Some(i) => {
                self.values.set(i, value);
                self.env = Ghost(new_env);
                assert forall|k: Seq<char>| #[trigger] self.env@.contains_key(k) implies exists|
                    j: int,
                | 0 <= j < self.names@.len() && self.names@[j]@ == k by {
                    if k != key {
                        assert(old(self).env@.contains_key(k));
                    }
                }
            },
            None => {
                self.names.push(name);
                self.values.push(value);
                self.env = Ghost(new_env);
                let ghost n = self.names@.len() - 1;
                assert(self.names@[n]@ == key);
                assert forall|k: Seq<char>| #[trigger] self.env@.contains_key(k) implies exists|
                    j: int,
                | 0 <= j < self.names@.len() && self.names@[j]@ == k by {
                    if k != key {
                        assert(old(self).env@.contains_key(k));
                        let j = choose|j: int|
                            0 <= j < old(self).names@.len() && old(self).names@[j]@ == k;
                        assert(self.names@[j]@ == k);
                    }
                }
            },
        }
    }

    /// The expression `e` with each identifier replaced by the value bound
    /// to it; the first unbound identifier, from the left, is an error.
    pub fn resolve(&self, e: &Expression) -> (r: Result<Resolved, EvalError>)
        requires
            self.wf(),
        ensures
            match resolve_spec(expr_view(*e), self@) {
                Ok(rv) => r is Ok && resolved_view(r->Ok_0) == rv,
                Err(name) => r is Err && r->Err_0->UndefinedVariable_0@ == name,
            },
        decreases expr_view(*e),
    {
        match e {
            Expression::Identifier(name) => match self.lookup(name) {
                Some(v) => {
                    assert(expr_view(*e) == ExprView::Identifier(name@));
                    assert(resolved_view(Resolved::Value(v)) == ResolvedView::Value(v));
                    Ok(Resolved::Value(v))
                },
                None => {
                    let n = name.clone();
                    assert(n@ == name@);
                    Err(EvalError::UndefinedVariable(n))
                },
            },
            Expression::Literal(l) => Ok(Resolved::Literal(l.duplicate())),
            Expression::Expression { operand, args } => {
                let ghost av = expr_view(*e)->Combination_1;
                assert forall|j: int| 0 <= j < args@.len() implies av[j] == expr_view(
                    #[trigger] args@[j],
                ) by {}
                let mut out: Vec<Resolved> = Vec::new();
                let mut i: usize = 0;
                assert(av.subrange(0, 0) =~= Seq::<ExprView>::empty());
                assert(resolved_seq_view(out@) =~= Seq::<ResolvedView>::empty());
                while i < args.len()
                    invariant
                        self.wf(),
                        expr_view(*e) == ExprView::Combination(*operand, av),
                        i <= args@.len(),
                        av.len() == args@.len(),
                        forall|j: int| 0 <= j < args@.len() ==> av[j] == expr_view(#[trigger] args@[j]),
                        resolve_all_spec(av.subrange(0, i as int), self@) == Ok::<
                            Seq<ResolvedView>,
                            Seq<char>,
                        >(resolved_seq_view(out@)),
                    decreases args@.len() - i,
                {
                    proof {
                        assert(av.subrange(0, i + 1).drop_last() =~= av.subrange(0, i as int));
                    }
                    proof {
                        vstd::std_specs::vec::axiom_vec_index_decreases(*args, i as int);
                        assert(decreases_to!(expr_view(*e) => expr_view(*e)->Combination_1));
                        assert(decreases_to!(av => av[i as int]));
                        assert(av.subrange(0, i + 1).last() == av[i as int]);
                    }
                    let r = self.resolve(&args[i]);
                    match r {
                        Ok(x) => {
                            let ghost before = out@;
                            out.push(x);
                            assert(resolved_seq_view(out@) =~= resolved_seq_view(before).push(
                                resolved_view(x),
                            ));
                        },
                        Err(x) => {
                            proof {
                                assert(av[i as int] == expr_view(args@[i as int]));
                                assert(resolve_all_spec(av.subrange(0, i + 1), self@) == Err::<
                                    Seq<ResolvedView>,
                                    Seq<char>,
                                >(x->UndefinedVariable_0@));
                                lemma_resolve_all_prefix_err(av, i as int + 1, self@);
                            }
                            return Err(x);
                        },
                    }
                    i = i + 1;
                }
                assert(av.subrange(0, i as int) =~= av);
                let res = Resolved::Combination { operand: *operand, args: out };
                assert(resolved_view(res) == ResolvedView::Combination(
                    *operand,
                    resolved_seq_view(out@),
                )) by {
                    if let ResolvedView::Combination(_, v) = resolved_view(res) {
                        assert(v =~= resolved_seq_view(out@));
                    }
                }
                Ok(res)
            },
        }
    }
}

/// Reading a name right after binding it gives the bound value.
pub proof fn lemma_read_after_bind(env: Map<Seq<char>, u64>, name: Seq<char>, value: u64)
    ensures
        resolve_spec(ExprView::Identifier(name), env.insert(name, value)) == Ok::<
            ResolvedView,
            Seq<char>,
        >(ResolvedView::Value(value)),
{
}

/// Of two bindings of one name, a read gives the later one.
pub proof fn lemma_last_binding_wins(
    env: Map<Seq<char>, u64>,
    name: Seq<char>,
    first: u64,
    second: u64,
)
    ensures
        resolve_spec(ExprView::Identifier(name), env.insert(name, first).insert(name, second))
            == Ok::<ResolvedView, Seq<char>>(ResolvedView::Value(second)),
{
}

/// Reading a name that nothing is bound to fails, and names it.
pub proof fn lemma_unbound_name_fails(env: Map<Seq<char>, u64>, name: Seq<char>)
    requires
        !env.contains_key(name),
    ensures
        resolve_spec(ExprView::Identifier(name), env) == Err::<ResolvedView, Seq<char>>(name),
{
}

/// A failure on a prefix of the arguments is the failure of them all.
proof fn lemma_resolve_all_prefix_err(args: Seq<ExprView>, n: int, env: Map<Seq<char>, u64>)
    requires
        0 <= n <= args.len(),
        resolve_all_spec(args.subrange(0, n), env) is Err,
    ensures
        resolve_all_spec(args, env) == resolve_all_spec(args.subrange(0, n), env),
    decreases args.len() - n,
{
    if n < args.len() {
        assert(args.subrange(0, n + 1).drop_last() =~= args.subrange(0, n));
        lemma_resolve_all_prefix_err(args, n + 1, env);
    } else {
        assert(args.subrange(0, n) =~= args);
    }
}

impl Literal {
    /// A copy of this literal.
    pub fn duplicate(&self) -> (r: Literal)
        ensures
            r@ == self@,
    {
        match self {
            Literal::Number(n) => Literal::Number(n.duplicate()),
            Literal::NumberAndMultiplier { number, multiplier } => Literal::NumberAndMultiplier {
                number: number.duplicate(),
                multiplier: *multiplier,
            },
        }
    }
}

} // verus!
