//! Command-line option handling of the exact-capture commands.
use vstd::prelude::*;

use crate::model::strings_view;
use crate::text::owned;

verus! {

broadcast use vstd::string::group_string_axioms;

/// Output form of an inspection command.
#[derive(Debug, Clone, Copy, PartialEq, Eq, Structural)]
pub enum OutputMode {
    Agent,
    Yaml,
}

/// An authored-object focus (and optional binding focus) requested on the
/// command line.
#[derive(Debug)]
pub struct ExactFocus {
    pub object_id: Option<String>,
    pub binding_id: Option<String>,
}

impl ExactFocus {
    pub fn new() -> (r: Self)
        ensures
            r.object_id is None,
            r.binding_id is None,
    {
        ExactFocus { object_id: None, binding_id: None }
    }

    /// A focus is active when an object is selected.
    pub fn is_active(&self) -> (r: bool)
        ensures
            r == self.object_id is Some,
    {
        self.object_id.is_some()
    }
}

/// A refused command line.
#[derive(Debug, PartialEq, Eq)]
pub enum CliError {
    ObjectEmpty,
    ObjectRepeated,
    BindingEmpty,
    BindingRepeated,
    BindingWithoutObject,
    FocusWithYaml,
    FocusWithDerive,
    /// An option that the command does not know.
    UnknownOption(String),
}

pub open spec fn cli_error_message(e: CliError) -> Seq<char> {
    match e {
        CliError::ObjectEmpty => "--object must not be empty"@,
        CliError::ObjectRepeated => "--object may only be supplied once"@,
        CliError::BindingEmpty => "--binding must not be empty"@,
        CliError::BindingRepeated => "--binding may only be supplied once"@,
        CliError::BindingWithoutObject => "--binding requires --object"@,
        CliError::FocusWithYaml => "authored focus is an agent-text projection; --object/--binding cannot be combined with --yaml"@,
        CliError::FocusWithDerive => "authored focus omits canonical semantics; --derive cannot be combined with --object/--binding"@,
        CliError::UnknownOption(_) => ""@,
    }
}

impl CliError {
    /// The message of a refusal with a fixed text (empty for an unknown
    /// option, whose message quotes the option).
    pub fn message(&self) -> (r: &'static str)
        ensures
            r@ == cli_error_message(*self),
    {
        match self {
            CliError::ObjectEmpty => "--object must not be empty",
            CliError::ObjectRepeated => "--object may only be supplied once",
            CliError::BindingEmpty => "--binding must not be empty",
            CliError::BindingRepeated => "--binding may only be supplied once",
            CliError::BindingWithoutObject => "--binding requires --object",
            CliError::FocusWithYaml => "authored focus is an agent-text projection; --object/--binding cannot be combined with --yaml",
            CliError::FocusWithDerive => "authored focus omits canonical semantics; --derive cannot be combined with --object/--binding",
            CliError::UnknownOption(_) => "",
        }
    }
}

pub open spec fn starts_with(s: Seq<char>, p: Seq<char>) -> bool {
    s.len() >= p.len() && s.take(p.len() as int) == p
}

/// `s` without the prefix `p`, when it starts with it.
fn strip_prefix(s: &str, p: &str) -> (r: Option<String>)
    ensures
        r is Some <==> starts_with(s@, p@),
        r matches Some(rest) ==> rest@ == s@.skip(p@.len() as int),
{
    let cs = crate::text::chars_of(s);
    let ps = crate::text::chars_of(p);
    if cs.len() < ps.len() {
        return None;
    }
    let mut i: usize = 0;
    while i < ps.len()
        invariant
            cs@ == s@,
            ps@ == p@,
            ps.len() <= cs.len(),
            i <= ps.len(),
            forall|j: int| 0 <= j < i ==> cs@[j] == ps@[j],
        decreases ps.len() - i,
    {
        if cs[i] != ps[i] {
            assert(s@.take(p@.len() as int)[i as int] != p@[i as int]);
            return None;
        }
        i = i + 1;
    }
    assert(s@.take(p@.len() as int) =~= p@);
    let mut rest = String::new();
    let mut k: usize = ps.len();
    while k < cs.len()
        invariant
            cs@ == s@,
            ps.len() <= k <= cs.len(),
            rest@ == cs@.subrange(ps.len() as int, k as int),
        decreases cs.len() - k,
    {
        crate::text::push_char(&mut rest, cs[k]);
        k = k + 1;
        assert(rest@ =~= cs@.subrange(ps.len() as int, k as int));
    }
    assert(rest@ =~= s@.skip(p@.len() as int));
    Some(rest)
}

/// The effect of one command-line argument on the focus options:
/// `--object=ID` and `--binding=ID` are taken (each once, never empty);
/// any other argument is left for the caller.
pub open spec fn focus_option_result(
    arg: Seq<char>,
    object_id: Option<Seq<char>>,
    binding_id: Option<Seq<char>>,
) -> (Result<bool, CliError>, Option<Seq<char>>, Option<Seq<char>>) {
    if starts_with(arg, "--object="@) {
        let value = arg.skip("--object="@.len() as int);
        if value.len() == 0 {
            (Err(CliError::ObjectEmpty), object_id, binding_id)
        } else if object_id is Some {
            (Err(CliError::ObjectRepeated), Some(value), binding_id)
        } else {
            (Ok(true), Some(value), binding_id)
        }
    } else if starts_with(arg, "--binding="@) {
        let value = arg.skip("--binding="@.len() as int);
        if value.len() == 0 {
            (Err(CliError::BindingEmpty), object_id, binding_id)
        } else if binding_id is Some {
            (Err(CliError::BindingRepeated), object_id, Some(value))
        } else {
            (Ok(true), object_id, Some(value))
        }
    } else {
        (Ok(false), object_id, binding_id)
    }
}

/// Take `--object=ID` / `--binding=ID`; `Ok(false)` for any other argument.
pub fn parse_exact_focus_option(arg: &str, focus: &mut ExactFocus) -> (r: Result<bool, CliError>)
    ensures
        (r, crate::model::str_opt_view(final(focus).object_id), crate::model::str_opt_view(
            final(focus).binding_id,
        )) == focus_option_result(
            arg@,
            crate::model::str_opt_view(old(focus).object_id),
            crate::model::str_opt_view(old(focus).binding_id),
        ),
{
    match strip_prefix(arg, "--object=") {
        Some(value) => {
            if value.as_str().is_empty() {
                return Err(CliError::ObjectEmpty);
            }
            let previous = focus.object_id.is_some();
            focus.object_id = Some(value);
            if previous {
                return Err(CliError::ObjectRepeated);
            }
            return Ok(true);
        },
        None => {},
    }
    match strip_prefix(arg, "--binding=") {
        Some(value) => {
            if value.as_str().is_empty() {
                return Err(CliError::BindingEmpty);
            }
            let previous = focus.binding_id.is_some();
            focus.binding_id = Some(value);
            if previous {
                return Err(CliError::BindingRepeated);
            }
            return Ok(true);
        },
        None => {},
    }
    Ok(false)
}

/// Refuse focus combinations: a binding without an object, a focus with
/// YAML output or with derived geometry.
pub fn validate_exact_focus(focus: &ExactFocus, mode: OutputMode, derive: bool) -> (r: Result<(), CliError>)
    ensures
        r == if focus.binding_id is Some && focus.object_id is None {
            Err(CliError::BindingWithoutObject)
        } else if focus.object_id is Some && mode == OutputMode::Yaml {
            Err(CliError::FocusWithYaml)
        } else if focus.object_id is Some && derive {
            Err(CliError::FocusWithDerive)
        } else {
            Ok(())
        },
{
    if focus.binding_id.is_some() && focus.object_id.is_none() {
        return Err(CliError::BindingWithoutObject);
    }
    if focus.is_active() && mode == OutputMode::Yaml {
        return Err(CliError::FocusWithYaml);
    }
    if focus.is_active() && derive {
        return Err(CliError::FocusWithDerive);
    }
    Ok(())
}

/// The outcome of scanning arguments for `--agent` / `--yaml`: positionals
/// in order and the last mode given, or the first other option refused.
pub open spec fn output_args_result(args: Seq<Seq<char>>) -> Result<(Seq<Seq<char>>, OutputMode), Seq<char>>
    decreases args.len(),
{
    if args.len() == 0 {
        Ok((Seq::empty(), OutputMode::Agent))
    } else {
        match output_args_result(args.drop_last()) {
            Err(e) => Err(e),
            Ok((positionals, mode)) => {
                let a = args.last();
                if a == "--agent"@ {
                    Ok((positionals, OutputMode::Agent))
                } else if a == "--yaml"@ {
                    Ok((positionals, OutputMode::Yaml))
                } else if starts_with(a, "-"@) {
                    Err(a)
                } else {
                    Ok((positionals.push(a), mode))
                }
            },
        }
    }
}

/// Split arguments into positionals and the output mode.
pub fn output_args(args: Vec<String>) -> (r: Result<(Vec<String>, OutputMode), CliError>)
    ensures
        match (r, output_args_result(strings_view(args@))) {
            (Ok((p, m)), Ok((sp, sm))) => strings_view(p@) == sp && m == sm,
            (Err(CliError::UnknownOption(a)), Err(sa)) => a@ == sa,
            _ => false,
        },
{
    let ghost v = strings_view(args@);
    let mut positionals: Vec<String> = Vec::new();
    let mut mode = OutputMode::Agent;
    let mut i: usize = 0;
    let agent = owned("--agent");
    let yaml = owned("--yaml");
    assert(strings_view(positionals@) =~= Seq::<Seq<char>>::empty());
    assert(v.take(0) =~= Seq::<Seq<char>>::empty());
    while i < args.len()
        invariant
            v == strings_view(args@),
            agent@ == "--agent"@,
            yaml@ == "--yaml"@,
            i <= args.len(),
            output_args_result(v.take(i as int)) == Ok::<(Seq<Seq<char>>, OutputMode), Seq<char>>(
                (strings_view(positionals@), mode),
            ),
        decreases args.len() - i,
    {
        proof {
            assert(v.take(i + 1).drop_last() =~= v.take(i as int));
            assert(v.take(i + 1).last() == args@[i as int]@);
        }
        let arg = &args[i];
        let ghost before = strings_view(positionals@);
        if *arg == agent {
            mode = OutputMode::Agent;
        } else if *arg == yaml {
            mode = OutputMode::Yaml;
        } else if strip_prefix(arg.as_str(), "-").is_some() {
            let refused = arg.clone();
            proof {
                lemma_output_args_err_stays(v, i as int + 1, arg@);
                assert(v.take(args.len() as int) =~= v);
            }
            return Err(CliError::UnknownOption(refused));
        } else {
            positionals.push(arg.clone());
            assert(strings_view(positionals@) =~= before.push(arg@));
        }
        i = i + 1;
    }
    assert(v.take(args.len() as int) =~= v);
    Ok((positionals, mode))
}

/// Once a prefix of the arguments is refused, all of them are, with the same option.
proof fn lemma_output_args_err_stays(v: Seq<Seq<char>>, k: int, e: Seq<char>)
    requires
        0 <= k <= v.len(),
        output_args_result(v.take(k)) == Err::<(Seq<Seq<char>>, OutputMode), Seq<char>>(e),
    ensures
        output_args_result(v) == Err::<(Seq<Seq<char>>, OutputMode), Seq<char>>(e),
    decreases v.len() - k,
{
    if k < v.len() {
        assert(v.take(k + 1).drop_last() =~= v.take(k));
        lemma_output_args_err_stays(v, k + 1, e);
    } else {
        assert(v.take(k) =~= v);
    }
}

} // verus!
