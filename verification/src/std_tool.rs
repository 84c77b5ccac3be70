//! The standard function library: environment lookup and the two
//! array helpers, gathered into the built-in function registry.
use crate::error::EvalError;
use crate::error::SpecErr;
use crate::eval::CallResult;
use crate::eval::FunctionSet;
use crate::eval::SpecCallOut;
use crate::value::SpecVal;
use crate::value::Value;
use crate::value::spec_val_eq;
use crate::value::spec_vals_of;
use crate::value::str_eq;
use crate::value::val_eq;
use vstd::prelude::*;

verus! {

broadcast use vstd::std_specs::vec::group_vec_axioms;

/// Named environment variables, consulted by the `env` function.
#[derive(Debug)]
pub struct Env {
    envs: Vec<(String, String)>,
}

pub open spec fn spec_envs_of(s: Seq<(String, String)>) -> Seq<(Seq<char>, Seq<char>)> {
    Seq::new(s.len(), |i: int| (s[i].0@, s[i].1@))
}

impl View for Env {
    type V = Seq<(Seq<char>, Seq<char>)>;

    closed spec fn view(&self) -> Seq<(Seq<char>, Seq<char>)> {
        spec_envs_of(self.envs@)
    }
}

/// The value under a key, first match winning.
pub open spec fn spec_env_lookup(envs: Seq<(Seq<char>, Seq<char>)>, key: Seq<char>) -> Option<
    Seq<char>,
>
    decreases envs.len(),
{
    if envs.len() == 0 {
        None
    } else if envs[0].0 == key {
        Some(envs[0].1)
    } else {
        spec_env_lookup(envs.drop_first(), key)
    }
}

/// The variable list without any pair under the key.
pub open spec fn spec_envs_without(
    envs: Seq<(Seq<char>, Seq<char>)>,
    key: Seq<char>,
) -> Seq<(Seq<char>, Seq<char>)>
    decreases envs.len(),
{
    if envs.len() == 0 {
        envs
    } else if envs[0].0 == key {
        spec_envs_without(envs.drop_first(), key)
    } else {
        seq![envs[0]] + spec_envs_without(envs.drop_first(), key)
    }
}

/// The variable list after adding each given pair in order, every
/// add dropping an earlier pair of the same name and appending.
pub open spec fn spec_env_add_all(
    envs: Seq<(Seq<char>, Seq<char>)>,
    pairs: Seq<(Seq<char>, Seq<char>)>,
) -> Seq<(Seq<char>, Seq<char>)>
    decreases pairs.len(),
{
    if pairs.len() == 0 {
        envs
    } else {
        spec_env_add_all(
            spec_envs_without(envs, pairs[0].0).push((pairs[0].0, pairs[0].1)),
            pairs.drop_first(),
        )
    }
}

/// What the `env` function returns: the named variable's value, or
/// the empty string when the name is unknown or no string was given;
/// no argument at all is an error.
pub open spec fn spec_env_call(envs: Seq<(Seq<char>, Seq<char>)>, args: Seq<SpecVal>) -> Result<
    SpecVal,
    SpecErr,
> {
    if args.len() < 1 {
        Err(SpecErr::Custom("must have a args"@))
    } else {
        match args[0] {
            SpecVal::Str(key) => match spec_env_lookup(envs, key) {
                Some(v) => Ok(SpecVal::Str(v)),
                None => Ok(SpecVal::Str(Seq::empty())),
            },
            _ => Ok(SpecVal::Str(Seq::empty())),
        }
    }
}

impl Env {
    /// An empty variable set.
    pub fn new() -> (r: Env)
        ensures
            r@ =~= Seq::<(Seq<char>, Seq<char>)>::empty(),
    {
        Env { envs: Vec::new() }
    }

    /// Adds one variable; the new pair goes last, after any earlier
    /// pair of the same name is dropped.
    #[verifier::loop_isolation(false)]
    pub fn add_env_variable(&mut self, key: &str, value: &str)
        ensures
            final (self)@ =~= spec_envs_without(old(self)@, key@).push((key@, value@)),
    {
        let ghost before = spec_envs_of(self.envs@);
        let mut kept: Vec<(String, String)> = Vec::new();
        let mut old_envs: Vec<(String, String)> = Vec::new();
        core::mem::swap(&mut self.envs, &mut old_envs);
        while old_envs.len() > 0
            invariant
                spec_envs_without(before, key@) =~= spec_envs_of(kept@) + spec_envs_without(
                    spec_envs_of(old_envs@),
                    key@,
                ),
            decreases old_envs@.len(),
        {
            let ghost rem = spec_envs_of(old_envs@);
            let item = old_envs.remove(0);
            proof {
                assert(spec_envs_of(old_envs@) =~= rem.drop_first());
                assert((item.0@, item.1@) == rem[0]);
            }
            let keep = !str_eq(item.0.as_str(), key);
            if keep {
                let ghost kv = spec_envs_of(kept@);
                kept.push(item);
                proof {
                    assert(spec_envs_of(kept@) =~= kv.push(rem[0]));
                    assert(kv + (seq![rem[0]] + spec_envs_without(rem.drop_first(), key@))
                        =~= kv.push(rem[0]) + spec_envs_without(rem.drop_first(), key@));
                }
            }
        }
        proof {
            assert(spec_envs_of(old_envs@) =~= Seq::<(Seq<char>, Seq<char>)>::empty());
            let kv = spec_envs_of(kept@);
            assert(kv + Seq::<(Seq<char>, Seq<char>)>::empty() =~= kv);
        }
        kept.push((key.to_owned(), value.to_owned()));
        self.envs = kept;
        proof {
            assert(spec_envs_of(self.envs@) =~= spec_envs_without(before, key@).push(
                (key@, value@),
            ));
        }
    }

    /// Adds every pair of the list, in order, each as
    /// `add_env_variable` does.
    #[verifier::loop_isolation(false)]
    pub fn add_env_variables(&mut self, pairs: Vec<(String, String)>)
        ensures
            final (self)@ == spec_env_add_all(old(self)@, spec_envs_of(pairs@)),
    {
        let ghost ps = spec_envs_of(pairs@);
        let mut i: usize = 0;
        proof {
            assert(ps.skip(0) =~= ps);
        }
        while i < pairs.len()
            invariant
                i <= pairs@.len(),
                ps == spec_envs_of(pairs@),
                spec_env_add_all(old(self)@, ps) == spec_env_add_all(self@, ps.skip(i as int)),
            decreases pairs.len() - i,
        {
            proof {
                assert(ps.skip(i as int)[0] == ps[i as int]);
                assert(ps.skip(i as int).drop_first() =~= ps.skip(i as int + 1));
            }
            self.add_env_variable(pairs[i].0.as_str(), pairs[i].1.as_str());
            i = i + 1;
        }
        proof {
            assert(ps.skip(pairs@.len() as int) =~= Seq::<(Seq<char>, Seq<char>)>::empty());
        }
    }

    /// The `env` function itself.
    #[verifier::loop_isolation(false)]
    pub fn call(&self, args: &Vec<Value>) -> (r: Result<Value, EvalError>)
        ensures
            ({
                let sp = spec_env_call(self@, spec_vals_of(args@));
                match r {
                    Ok(v) => sp == Ok::<SpecVal, SpecErr>(v@),
                    Err(e) => sp == Err::<SpecVal, SpecErr>(e@),
                }
            }),
    {
        let ghost sargs = spec_vals_of(args@);
        if args.len() < 1 {
            return Err(EvalError::Custom("must have a args".to_owned()));
        }
        proof {
            assert(sargs[0] == args@[0]@);
        }
        match &args[0] {
            Value::Str(key) => {
                let ghost es = self@;
                let mut i: usize = 0;
                proof {
                    assert(es.skip(0) =~= es);
                }
                while i < self.envs.len()
                    invariant
                        i <= self.envs@.len(),
                        es == spec_envs_of(self.envs@),
                        spec_env_lookup(es, key@) == spec_env_lookup(es.skip(i as int), key@),
                    decreases self.envs@.len() - i,
                {
                    proof {
                        assert(es.skip(i as int)[0] == es[i as int]);
                        assert(es.skip(i as int).drop_first() =~= es.skip(i as int + 1));
                    }
                    if str_eq(self.envs[i].0.as_str(), key.as_str()) {
                        return Ok(Value::Str(self.envs[i].1.clone()));
                    }
                    i = i + 1;
                }
                proof {
                    assert(es.skip(self.envs@.len() as int) =~= Seq::<(Seq<char>, Seq<char>)>::empty());
                }
                let empty = String::new();
                Ok(Value::Str(empty))
            },
            _ => {
                let empty = String::new();
                Ok(Value::Str(empty))
            },
        }
    }
}

/// Whether an array contains a sought value: null by kind, booleans,
/// integers and strings by value, a sought array when each of its
/// elements is contained, floats and mappings never.
pub open spec fn spec_contain(arr: Seq<SpecVal>, des: SpecVal) -> bool
    decreases des,
{
    match des {
        SpecVal::Null => exists|i: int| 0 <= i < arr.len() && arr[i] is Null,
        SpecVal::Bool(d) => exists|i: int|
            0 <= i < arr.len() && #[trigger] arr[i] == SpecVal::Bool(d),
        SpecVal::Int(n) => exists|i: int|
            0 <= i < arr.len() && #[trigger] arr[i] == SpecVal::Int(n),
        SpecVal::Str(s) => exists|i: int|
            0 <= i < arr.len() && #[trigger] arr[i] == SpecVal::Str(s),
        SpecVal::Array(list) => forall|j: int|
            0 <= j < list.len() ==> spec_contain(arr, #[trigger] list[j]),
        _ => false,
    }
}

/// The `contain` function: two arguments, the first an array.
pub open spec fn spec_contain_call(args: Seq<SpecVal>) -> Result<SpecVal, SpecErr> {
    if args.len() < 2 {
        Err(SpecErr::Custom("ArrayContain: must have two args"@))
    } else {
        match args[0] {
            SpecVal::Array(arr) => Ok(SpecVal::Bool(spec_contain(arr, args[1]))),
            _ => Err(SpecErr::Custom("ArrayContain: first input must is array"@)),
        }
    }
}

/// The membership helper behind the `contain` function.
pub struct ArrayContain;

impl ArrayContain {
    /// Whether the array contains the sought value.
    #[verifier::loop_isolation(false)]
    pub fn contain(array: &Vec<Value>, des: &Value) -> (r: bool)
        ensures
            r == spec_contain(spec_vals_of(array@), des@),
        decreases *des,
    {
        let ghost arr = spec_vals_of(array@);
        match des {
            Value::Null => {
                let mut i: usize = 0;
                while i < array.len()
                    invariant
                        i <= array@.len(),
                        forall|j: int| 0 <= j < i ==> !(#[trigger] arr[j] is Null),
                    decreases array.len() - i,
                {
                    let hit = match &array[i] {
                        Value::Null => true,
                        _ => false,
                    };
                    if hit {
                        proof {
                            assert(arr[i as int] is Null);
                        }
                        return true;
                    }
                    i = i + 1;
                }
                false
            },
            Value::Bool(d) => {
                let mut i: usize = 0;
                while i < array.len()
                    invariant
                        i <= array@.len(),
                        forall|j: int| 0 <= j < i ==> #[trigger] arr[j] != SpecVal::Bool(des@->Bool_0),
                    decreases array.len() - i,
                {
                    let hit = match &array[i] {
                        Value::Bool(b) => *b == *d,
                        _ => false,
                    };
                    if hit {
                        proof {
                            assert(arr[i as int] == SpecVal::Bool(des@->Bool_0));
                        }
                        return true;
                    }
                    i = i + 1;
                }
                false
            },
            Value::Int(n) => {
                let mut i: usize = 0;
                while i < array.len()
                    invariant
                        i <= array@.len(),
                        forall|j: int| 0 <= j < i ==> #[trigger] arr[j] != SpecVal::Int(des@->Int_0),
                    decreases array.len() - i,
                {
                    let hit = match &array[i] {
                        Value::Int(m) => *m == *n,
                        _ => false,
                    };
                    if hit {
                        proof {
                            assert(arr[i as int] == SpecVal::Int(des@->Int_0));
                        }
                        return true;
                    }
                    i = i + 1;
                }
                false
            },
            Value::Str(s) => {
                let mut i: usize = 0;
                while i < array.len()
                    invariant
                        i <= array@.len(),
                        forall|j: int| 0 <= j < i ==> #[trigger] arr[j] != SpecVal::Str(des@->Str_0),
                    decreases array.len() - i,
                {
                    let hit = match &array[i] {
                        Value::Str(t) => str_eq(t.as_str(), s.as_str()),
                        _ => false,
                    };
                    if hit {
                        proof {
                            assert(arr[i as int] == SpecVal::Str(des@->Str_0));
                        }
                        return true;
                    }
                    i = i + 1;
                }
                false
            },
            Value::Array(list) => {
                let ghost dl = des@->Array_0;
                let mut j: usize = 0;
                while j < list.len()
                    invariant
                        j <= list@.len(),
                        dl.len() == list@.len(),
                        forall|k: int| 0 <= k < j ==> spec_contain(arr, #[trigger] dl[k]),
                    decreases list.len() - j,
                {
                    proof {
                        assert(*des == Value::Array(*list));
                        assert(decreases_to!(*des => (*des)->Array_0));
                        assert(decreases_to!(*list => list@));
                        assert(decreases_to!(list@ => list@[j as int]));
                        assert(dl[j as int] == list@[j as int]@);
                    }
                    if !ArrayContain::contain(array, &list[j]) {
                        return false;
                    }
                    j = j + 1;
                }
                true
            },
            _ => false,
        }
    }

    /// The `contain` function itself.
    pub fn call(&self, args: &Vec<Value>) -> (r: Result<Value, EvalError>)
        ensures
            ({
                let sp = spec_contain_call(spec_vals_of(args@));
                match r {
                    Ok(v) => sp == Ok::<SpecVal, SpecErr>(v@),
                    Err(e) => sp == Err::<SpecVal, SpecErr>(e@),
                }
            }),
    {
        let ghost sargs = spec_vals_of(args@);
        if args.len() < 2 {
            return Err(EvalError::Custom("ArrayContain: must have two args".to_owned()));
        }
        proof {
            assert(sargs[0] == args@[0]@);
            assert(sargs[1] == args@[1]@);
        }
        match &args[0] {
            Value::Array(items) => {
                proof {
                    crate::value::lemma_array_view(*items);
                    assert(args@[0]@->Array_0 =~= spec_vals_of(items@));
                }
                Ok(Value::Bool(ArrayContain::contain(items, &args[1])))
            },
            _ => Err(EvalError::Custom("ArrayContain: first input must is array".to_owned())),
        }
    }
}

/// Whether the two arrays share one structurally equal element.
pub open spec fn spec_sub(la: Seq<SpecVal>, ra: Seq<SpecVal>) -> bool {
    exists|i: int, j: int|
        0 <= i < la.len() && 0 <= j < ra.len() && spec_val_eq(#[trigger] la[i], #[trigger] ra[j])
}

/// The `sub` function: two arguments, both arrays.
pub open spec fn spec_sub_call(args: Seq<SpecVal>) -> Result<SpecVal, SpecErr> {
    if args.len() < 2 {
        Err(SpecErr::Custom("ArrayContain: must have two args"@))
    } else {
        match (args[0], args[1]) {
            (SpecVal::Array(la), SpecVal::Array(ra)) => Ok(SpecVal::Bool(spec_sub(la, ra))),
            (SpecVal::Array(la), _) => Err(
                SpecErr::Custom("ArrayContain: second input must is array"@),
            ),
            _ => Err(SpecErr::Custom("ArrayContain: first input must is array"@)),
        }
    }
}

/// The overlap helper behind the `sub` function.
pub struct ArraySub;

impl ArraySub {
    /// The `sub` function itself.
    #[verifier::loop_isolation(false)]
    pub fn call(&self, args: &Vec<Value>) -> (r: Result<Value, EvalError>)
        ensures
            ({
                let sp = spec_sub_call(spec_vals_of(args@));
                match r {
                    Ok(v) => sp == Ok::<SpecVal, SpecErr>(v@),
                    Err(e) => sp == Err::<SpecVal, SpecErr>(e@),
                }
            }),
    {
        let ghost sargs = spec_vals_of(args@);
        if args.len() < 2 {
            return Err(EvalError::Custom("ArrayContain: must have two args".to_owned()));
        }
        proof {
            assert(sargs[0] == args@[0]@);
            assert(sargs[1] == args@[1]@);
        }
        let la = match &args[0] {
            Value::Array(items) => items,
            _ => {
                return Err(EvalError::Custom("ArrayContain: first input must is array".to_owned()));
            },
        };
        let ra = match &args[1] {
            Value::Array(items) => items,
            _ => {
                return Err(
                    EvalError::Custom("ArrayContain: second input must is array".to_owned()),
                );
            },
        };
        let ghost sl = spec_vals_of(la@);
        let ghost sr = spec_vals_of(ra@);
        proof {
            crate::value::lemma_array_view(*la);
            crate::value::lemma_array_view(*ra);
            assert(args@[0]@->Array_0 =~= sl);
            assert(args@[1]@->Array_0 =~= sr);
        }
        let mut i: usize = 0;
        while i < la.len()
            invariant
                i <= la@.len(),
                forall|p: int, q: int|
                    0 <= p < i && 0 <= q < sr.len() ==> !spec_val_eq(
                        #[trigger] sl[p],
                        #[trigger] sr[q],
                    ),
            decreases la.len() - i,
        {
            let mut j: usize = 0;
            while j < ra.len()
                invariant
                    i < la@.len(),
                    j <= ra@.len(),
                    forall|q: int| 0 <= q < j ==> !spec_val_eq(sl[i as int], #[trigger] sr[q]),
                decreases ra.len() - j,
            {
                if val_eq(&la[i], &ra[j]) {
                    proof {
                        assert(spec_val_eq(sl[i as int], sr[j as int]));
                    }
                    return Ok(Value::Bool(true));
                }
                j = j + 1;
            }
            i = i + 1;
        }
        Ok(Value::Bool(false))
    }
}

/// What the built-in registry returns for each named call: `env`,
/// `contain` and `sub`, nothing else.
pub open spec fn spec_std_call(
    envs: Seq<(Seq<char>, Seq<char>)>,
    name: Seq<char>,
    args: Seq<SpecVal>,
) -> SpecCallOut {
    if name == "env"@ {
        to_callout(spec_env_call(envs, args))
    } else if name == "contain"@ {
        to_callout(spec_contain_call(args))
    } else if name == "sub"@ {
        to_callout(spec_sub_call(args))
    } else {
        SpecCallOut::NotFound
    }
}

pub open spec fn to_callout(r: Result<SpecVal, SpecErr>) -> SpecCallOut {
    match r {
        Ok(v) => SpecCallOut::Done(v),
        Err(e) => SpecCallOut::Fail(e),
    }
}

/// The built-in function registry: the environment lookup and the two
/// array helpers.
#[derive(Debug)]
pub struct StdFunctions {
    env: Env,
}

impl StdFunctions {
    /// A registry with no environment variables.
    pub fn new() -> (r: StdFunctions)
        ensures
            r.env_view() =~= Seq::<(Seq<char>, Seq<char>)>::empty(),
    {
        StdFunctions { env: Env::new() }
    }

    /// A registry over the given environment.
    pub fn with_env(env: Env) -> (r: StdFunctions)
        ensures
            r.env_view() == env@,
    {
        StdFunctions { env }
    }

    /// The environment variables consulted by `env`.
    pub closed spec fn env_view(&self) -> Seq<(Seq<char>, Seq<char>)> {
        self.env@
    }
}

impl FunctionSet for StdFunctions {
    open spec fn fmodel(&self) -> spec_fn(Seq<char>, Seq<SpecVal>) -> SpecCallOut {
        |name: Seq<char>, args: Seq<SpecVal>| spec_std_call(self.env_view(), name, args)
    }

    fn call_function(&self, name: &str, args: Vec<Value>) -> (r: CallResult) {
        if str_eq(name, "env") {
            match self.env.call(&args) {
                Ok(v) => CallResult::Done(v),
                Err(e) => CallResult::Fail(e),
            }
        } else if str_eq(name, "contain") {
            match (ArrayContain).call(&args) {
                Ok(v) => CallResult::Done(v),
                Err(e) => CallResult::Fail(e),
            }
        } else if str_eq(name, "sub") {
            match (ArraySub).call(&args) {
                Ok(v) => CallResult::Done(v),
                Err(e) => CallResult::Fail(e),
            }
        } else {
            CallResult::NotFound
        }
    }
}


impl<F: crate::eval::FunctionSet> crate::rush::Rush<F> {
    /// The same rules over the built-in registry consulting the given
    /// environment: what the `env` function reads from.
    pub fn set_env(self, env: Env) -> (r: crate::rush::Rush<StdFunctions>)
        ensures
            r.rules() == self.rules(),
    {
        self.set_functions(StdFunctions::with_env(env))
    }
}

} // verus!
