//! Parser and evaluator for dotenv files written in the POSIX-shell
//! inspired dialect: `NAME=VALUE` assignments with shell-style quoting
//! and parameter expansion, resolved against an environment provider.
//!
//! The pipeline is one-directional: characters are tokenized into
//! tokens, tokens are parsed into assignments, and assignments are
//! evaluated against a layered scope. Each stage is stated as a
//! mathematical function and the executable code is proved to yield
//! exactly its result.

pub mod ast;
pub mod env;
pub mod err;
pub mod evaluator;
pub mod laws;
pub mod parser;
pub mod pos;
pub mod token;
pub mod tokenizer;

use vstd::prelude::*;

use crate::env::EnvProvider;
use crate::evaluator::{scope_distinct, sp_evaluate, EvaluationError, Evaluator, Scope, SpecEvalError};
use crate::parser::{parse, spec_parse_input, ParseError, SpecParseError};

verus! {

/// A top-level error: either a stage of the pipeline rejected a file,
/// or an expansion operator raised.
#[derive(Debug)]
pub enum PotenvError {
    ParseError(ParseError),
    EvaluationError(EvaluationError),
}

/// Mathematical model of a top-level error.
pub ghost enum SpecPotenvError {
    ParseError(SpecParseError),
    EvaluationError(SpecEvalError),
}

impl View for PotenvError {
    type V = SpecPotenvError;

    open spec fn view(&self) -> SpecPotenvError {
        match self {
            PotenvError::ParseError(e) => SpecPotenvError::ParseError(e@),
            PotenvError::EvaluationError(e) => SpecPotenvError::EvaluationError(e@),
        }
    }
}

impl From<ParseError> for PotenvError {
    fn from(e: ParseError) -> (r: Self) {
        PotenvError::ParseError(e)
    }
}

impl vstd::std_specs::convert::FromSpecImpl<ParseError> for PotenvError {
    open spec fn obeys_from_spec() -> bool {
        true
    }

    open spec fn from_spec(e: ParseError) -> Self {
        PotenvError::ParseError(e)
    }
}

impl From<EvaluationError> for PotenvError {
    fn from(e: EvaluationError) -> (r: Self) {
        PotenvError::EvaluationError(e)
    }
}

impl vstd::std_specs::convert::FromSpecImpl<EvaluationError> for PotenvError {
    open spec fn obeys_from_spec() -> bool {
        true
    }

    open spec fn from_spec(e: EvaluationError) -> Self {
        PotenvError::EvaluationError(e)
    }
}

/// A source file already read into memory: a display name for error
/// reports, and the text.
#[derive(Debug)]
pub struct SourceFile {
    pub name: Option<String>,
    pub content: String,
}

/// The texts of a sequence of source files.
pub open spec fn contents_view(files: Seq<SourceFile>) -> Seq<Seq<char>> {
    files.map_values(|f: SourceFile| f.content@)
}

/// Evaluate files in order, the scope cumulative across them: an earlier
/// file's assignment is visible to a later file. Any error aborts the
/// whole run.
pub open spec fn sp_eval_files(
    files: Seq<Seq<char>>,
    env: Map<Seq<char>, Seq<char>>,
    scope: Seq<(Seq<char>, Seq<char>)>,
    override_env: bool,
) -> Result<Seq<(Seq<char>, Seq<char>)>, SpecPotenvError>
    decreases files.len(),
{
    if files.len() == 0 {
        Ok(scope)
    } else {
        match spec_parse_input(files[0]) {
            Err(pe) => Err(SpecPotenvError::ParseError(pe)),
            Ok(ast) => match sp_evaluate(ast, env, scope, override_env) {
                Err(ee) => Err(SpecPotenvError::EvaluationError(ee)),
                Ok(s1) => sp_eval_files(files.drop_first(), env, s1, override_env),
            },
        }
    }
}

/// Write a scope back to a provider mapping, in insertion order: with
/// `override_env` every binding is written; without it only names the
/// provider does not already hold.
pub open spec fn sp_export(
    scope: Seq<(Seq<char>, Seq<char>)>,
    env: Map<Seq<char>, Seq<char>>,
    override_env: bool,
) -> Map<Seq<char>, Seq<char>>
    decreases scope.len(),
{
    if scope.len() == 0 {
        env
    } else {
        let env1 = if override_env || !env.contains_key(scope[0].0) {
            env.insert(scope[0].0, scope[0].1)
        } else {
            env
        };
        sp_export(scope.drop_first(), env1, override_env)
    }
}

/// The facade: wires files through the pipeline against a provider.
#[derive(Debug)]
pub struct Potenv<T: EnvProvider> {
    env: T,
    override_env: bool,
}

impl<T: EnvProvider> Potenv<T> {
    /// The provider mapping.
    pub closed spec fn env_map(&self) -> Map<Seq<char>, Seq<char>> {
        self.env.env()
    }

    /// Whether file values win over provider values.
    pub closed spec fn ov(&self) -> bool {
        self.override_env
    }

    pub fn new(env: T, override_env: bool) -> (r: Self)
        ensures
            r.env_map() == env.env(),
            r.ov() == override_env,
    {
        Potenv { env, override_env }
    }

    /// The provider, for reading what a load exported.
    pub fn provider(&self) -> (r: &T)
        ensures
            r.env() == self.env_map(),
    {
        &self.env
    }

    /// Sets whether variables in dotenv files override those the
    /// provider already holds. Defaults to false.
    pub fn override_env(self, override_env: bool) -> (r: Self)
        ensures
            r.env_map() == self.env_map(),
            r.ov() == override_env,
    {
        let Potenv { env, override_env: _ } = self;
        Potenv { env, override_env }
    }

    fn eval(&self, files: &Vec<SourceFile>) -> (r: Result<Scope, PotenvError>)
        requires
            forall|i: int|
                0 <= i < files@.len() ==> (#[trigger] files@[i].content)@.len() < usize::MAX,
        ensures
            match r {
                Ok(scope) => scope.wf() && sp_eval_files(
                    contents_view(files@),
                    self.env_map(),
                    Seq::empty(),
                    self.ov(),
                ) == Ok::<_, SpecPotenvError>(scope@),
                Err(e) => sp_eval_files(
                    contents_view(files@),
                    self.env_map(),
                    Seq::empty(),
                    self.ov(),
                ) matches Err(se) && e@ == se,
            },
    {
        let ghost cv = contents_view(files@);
        let ghost env0 = self.env_map();
        let ghost ov0 = self.ov();
        let mut ev = Evaluator::new(&self.env, self.override_env);
        let n = files.len();
        let mut i: usize = 0;
        proof {
            assert(cv.skip(0) =~= cv);
        }
        #[verifier::loop_isolation(false)]
        while i < n
            invariant
                i <= n,
                n == files@.len(),
                ev.env_map() == env0,
                ev.ov() == ov0,
                scope_distinct(ev.scope_view()),
                match sp_eval_files(cv.skip(i as int), env0, ev.scope_view(), ov0) {
                    Ok(s) => sp_eval_files(cv, env0, Seq::empty(), ov0) == Ok::<
                        _,
                        SpecPotenvError,
                    >(s),
                    Err(e2) => sp_eval_files(cv, env0, Seq::empty(), ov0) == Err::<
                        Seq<(Seq<char>, Seq<char>)>,
                        _,
                    >(e2),
                },
            decreases n - i,
        {
            proof {
                assert(cv.skip(i as int)[0] == files@[i as int].content@);
                assert(cv.skip(i as int).drop_first() =~= cv.skip(i as int + 1));
            }
            let f = &files[i];
            let name_opt: Option<&str> = match &f.name {
                Some(nm) => Some(nm.as_str()),
                None => None,
            };
            match parse(f.content.as_str(), name_opt) {
                Err(pe) => {
                    return Err(PotenvError::ParseError(pe));
                },
                Ok(ast) => {
                    match ev.evaluate(ast) {
                        Err(ee) => {
                            return Err(PotenvError::EvaluationError(ee));
                        },
                        Ok(_) => {},
                    }
                },
            }
            i += 1;
        }
        proof {
            assert(cv.skip(n as int) =~= Seq::<Seq<char>>::empty());
        }
        Ok(ev.into_env())
    }

    /// Evaluate the files in order against the provider, without writing
    /// anything back: the resolved scope, or the first error.
    pub fn evaluate(&self, files: &Vec<SourceFile>) -> (r: Result<Scope, PotenvError>)
        requires
            forall|i: int|
                0 <= i < files@.len() ==> (#[trigger] files@[i].content)@.len() < usize::MAX,
        ensures
            match r {
                Ok(scope) => scope.wf() && sp_eval_files(
                    contents_view(files@),
                    self.env_map(),
                    Seq::empty(),
                    self.ov(),
                ) == Ok::<_, SpecPotenvError>(scope@),
                Err(e) => sp_eval_files(
                    contents_view(files@),
                    self.env_map(),
                    Seq::empty(),
                    self.ov(),
                ) matches Err(se) && e@ == se,
            },
    {
        self.eval(files)
    }

    /// Evaluate the files, then write each binding to the provider in
    /// insertion order, subject to the override rule: without
    /// `override_env` only names the provider does not already hold are
    /// written. On an error nothing is written.
    pub fn load(&mut self, files: &Vec<SourceFile>) -> (r: Result<Scope, PotenvError>)
        requires
            forall|i: int|
                0 <= i < files@.len() ==> (#[trigger] files@[i].content)@.len() < usize::MAX,
        ensures
            final(self).ov() == old(self).ov(),
            match r {
                Ok(scope) => scope.wf() && sp_eval_files(
                    contents_view(files@),
                    old(self).env_map(),
                    Seq::empty(),
                    old(self).ov(),
                ) == Ok::<_, SpecPotenvError>(scope@) && final(self).env_map() == sp_export(
                    scope@,
                    old(self).env_map(),
                    old(self).ov(),
                ),
                Err(e) => sp_eval_files(
                    contents_view(files@),
                    old(self).env_map(),
                    Seq::empty(),
                    old(self).ov(),
                ) matches Err(se) && e@ == se && final(self).env_map() == old(self).env_map(),
            },
    {
        let scope = match self.eval(files) {
            Ok(s) => s,
            Err(e) => {
                return Err(e);
            },
        };
        let ghost env0 = self.env_map();
        let ghost ov0 = self.ov();
        let ghost sv = scope@;
        let n = scope.len();
        let mut i: usize = 0;
        proof {
            assert(sv.skip(0) =~= sv);
        }
        #[verifier::loop_isolation(false)]
        while i < n
            invariant
                i <= n,
                n == sv.len(),
                sv == scope@,
                self.ov() == ov0,
                sp_export(sv, env0, ov0) == sp_export(sv.skip(i as int), self.env_map(), ov0),
            decreases n - i,
        {
            proof {
                assert(sv.skip(i as int)[0] == sv[i as int]);
                assert(sv.skip(i as int).drop_first() =~= sv.skip(i as int + 1));
            }
            let p = scope.pair(i);
            if self.override_env {
                self.env.set_var(p.0.as_str(), p.1.as_str());
            } else {
                match self.env.var(p.0.as_str()) {
                    None => {
                        self.env.set_var(p.0.as_str(), p.1.as_str());
                    },
                    Some(_) => {},
                }
            }
            i += 1;
        }
        proof {
            assert(sv.skip(n as int) =~= Seq::<(Seq<char>, Seq<char>)>::empty());
        }
        Ok(scope)
    }
}

} // verus!
