//! How the surfaces of the API are generated.

use vstd::prelude::*;
use crate::text::{str_eq, view_result};

verus! {

/// The knobs of the generator.
#[derive(Debug, PartialEq, Eq)]
pub struct GenerateConfig {
    /// The function that generated HTTP handlers dispatch to.
    pub http_dispatch_fn: String,
    /// The type of the application state of generated HTTP handlers.
    pub http_state_type: String,
    /// What stands before the names of generated event streams.
    pub sse_binding_prefix: String,
    /// The name that generated files are signed with.
    pub generator_name: String,
}

/// The knobs of the generator: generated HTTP handlers dispatch to the server's shared operation
/// executor with the application state.
#[must_use]
pub fn iris_generate_config() -> (r: GenerateConfig)
    ensures
        r.http_dispatch_fn@ == "super::execute_generated_operation"@,
        r.http_state_type@ == "crate::app::AppState"@,
        r.sse_binding_prefix@ == "super::"@,
        r.generator_name@ == "hydra (iris)"@,
{
    GenerateConfig {
        http_dispatch_fn: "super::execute_generated_operation".to_owned(),
        http_state_type: "crate::app::AppState".to_owned(),
        sse_binding_prefix: "super::".to_owned(),
        generator_name: "hydra (iris)".to_owned(),
    }
}

/// What the generator does.
#[derive(Clone, Copy, Debug, PartialEq, Eq, Structural)]
pub enum CodegenCommand {
    /// Compares the committed files with what would be generated.
    Check,
    /// Writes the generated files.
    Write,
}

impl View for CodegenCommand {
    type V = CodegenCommand;

    open spec fn view(&self) -> CodegenCommand {
        *self
    }
}

/// A text between quotation marks, with its special characters escaped.
pub uninterp spec fn debug_text(text: Seq<char>) -> Seq<char>;

/// Calls the `Debug` formatting of `str`: the result is a function of the text alone.
#[verifier::external_body]
fn call_debug(text: &str) -> (r: String)
    ensures
        r@ == debug_text(text@),
{
    format!("{text:?}")
}

/// The command that the argument names; without one the generator checks.
pub fn codegen_command(argument: Option<&str>) -> (r: Result<CodegenCommand, String>)
    ensures
        view_result(r) == (match argument {
            None => Ok::<CodegenCommand, Seq<char>>(CodegenCommand::Check),
            Some(text) => command_named(text@, debug_text(text@)),
        }),
{
    match argument {
        None => Ok(CodegenCommand::Check),
        Some(text) => command_from(text, call_debug(text).as_str()),
    }
}

/// The command that a text names, of which the quoted form is given.
pub open spec fn command_named(text: Seq<char>, quoted: Seq<char>) -> Result<CodegenCommand, Seq<char>> {
    if text == "write"@ {
        Ok(CodegenCommand::Write)
    } else if text == "check"@ {
        Ok(CodegenCommand::Check)
    } else {
        Err("unknown command "@ + quoted + "; expected `check` or `write`"@)
    }
}

/// The command that a text names, of which the quoted form is given.
pub fn command_from(text: &str, quoted: &str) -> (r: Result<CodegenCommand, String>)
    ensures
        view_result(r) == command_named(text@, quoted@),
{
    if str_eq(text, "write") {
        return Ok(CodegenCommand::Write);
    }
    if str_eq(text, "check") {
        return Ok(CodegenCommand::Check);
    }
    let mut message = "unknown command ".to_owned();
    message.append(quoted);
    message.append("; expected `check` or `write`");
    Err(message)
}

/// The generator knows two commands, and refuses any other by its name.
pub proof fn law_the_generator_checks_or_writes(text: Seq<char>, quoted: Seq<char>)
    ensures
        command_named("check"@, quoted) == Ok::<CodegenCommand, Seq<char>>(CodegenCommand::Check),
        command_named("write"@, quoted) == Ok::<CodegenCommand, Seq<char>>(CodegenCommand::Write),
        text != "check"@ && text != "write"@ ==> command_named(text, quoted) == Err::<
            CodegenCommand,
            Seq<char>,
        >("unknown command "@ + quoted + "; expected `check` or `write`"@),
{
    reveal_strlit("check");
    reveal_strlit("write");
    assert("check"@[0] == 'c' && "write"@[0] == 'w');
}

} // verus!
