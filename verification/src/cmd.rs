//! Running programs: what is run, and what its output means.

use vstd::prelude::*;
use vstd::string::*;
use crate::text::{code_text, code_words, texts, trim, trimmed};

verus! {

/// What a program left behind.
#[derive(Debug)]
pub struct Output {
    pub stdout: String,
    pub stderr: String,
    pub success: bool,
    pub code: Option<i32>,
}

/// A program and its arguments.
#[derive(Debug)]
pub struct Invocation {
    pub program: String,
    pub args: Vec<String>,
}

impl Invocation {
    /// Whether this runs `program` with `args`.
    pub open spec fn runs(self, program: Seq<char>, args: Seq<Seq<char>>) -> bool {
        self.program@ == program && texts(self.args@) == args
    }
}

/// The arguments of a program, from their texts.
pub(crate) fn args_of(list: &[&str]) -> (args: Vec<String>)
    ensures
        texts(args@) == list@.map_values(|s: &str| s@),
{
    let mut args: Vec<String> = Vec::new();
    let mut i: usize = 0;
    assert(texts(args@) =~= list@.take(0).map_values(|s: &str| s@));
    while i < list.len()
        invariant
            i <= list@.len(),
            texts(args@) == list@.take(i as int).map_values(|s: &str| s@),
        decreases list@.len() - i,
    {
        let arg = list[i].to_owned();
        proof {
            crate::text::lemma_texts_push(args@, arg);
            assert(list@.take(i + 1).map_values(|s: &str| s@) =~= list@.take(
                i as int,
            ).map_values(|s: &str| s@).push(arg@));
        }
        args.push(arg);
        i = i + 1;
    }
    assert(list@.take(list@.len() as int) =~= list@);
    args
}

/// Looks for a program in PATH.
pub fn which(cmd: &str) -> (ask: Invocation)
    ensures
        ask.runs("which"@, seq![cmd@]),
{
    let args = args_of(&[cmd]);
    assert(texts(args@) =~= seq![cmd@]);
    Invocation { program: "which".to_owned(), args }
}

/// Whether a program is available: the search for it could be run and succeeded.
pub fn is_available(found: Option<bool>) -> (yes: bool)
    ensures
        yes == (found == Some(true)),
{
    match found {
        Some(success) => success,
        None => false,
    }
}

/// Takes the output of a program whatever its exit code; `None` where it could not be
/// started.
pub fn run_unchecked(cmd: &str, output: Option<Output>) -> (checked: Result<Output, String>)
    ensures
        match output {
            Some(o) => checked == Ok::<Output, String>(o),
            None => checked is Err && checked->Err_0@ == "Failed to execute "@ + cmd@,
        },
{
    match output {
        Some(o) => Ok(o),
        None => {
            let mut message = "Failed to execute ".to_owned();
            message.append(cmd);
            Err(message)
        },
    }
}

/// The error text of a program that failed.
pub open spec fn failure_words(cmd: Seq<char>, stderr: Seq<char>, code: Option<i32>) -> Seq<char> {
    if trimmed(stderr).len() == 0 {
        cmd + " failed with exit code "@ + code_words(code)
    } else {
        cmd + " failed: "@ + trimmed(stderr)
    }
}

/// Takes the output of a program that must succeed. The error holds what the program
/// wrote to its error output, or its exit code where it wrote nothing.
pub fn run(cmd: &str, output: Option<Output>) -> (checked: Result<Output, String>)
    ensures
        match output {
            None => checked is Err && checked->Err_0@ == "Failed to execute "@ + cmd@,
            Some(o) => match checked {
                Ok(kept) => o.success && kept == o,
                Err(message) => !o.success && message@ == failure_words(cmd@, o.stderr@, o.code),
            },
        },
{
    let output = match run_unchecked(cmd, output) {
        Ok(o) => o,
        Err(message) => {
            return Err(message);
        },
    };
    if output.success {
        return Ok(output);
    }
    let stderr = trim(output.stderr.as_str());
    let mut message = cmd.to_owned();
    if stderr.as_str().is_empty() {
        message.append(" failed with exit code ");
        message.append(code_text(output.code).as_str());
    } else {
        message.append(" failed: ");
        message.append(stderr.as_str());
    }
    Err(message)
}

/// The error text for a program that is not installed.
pub open spec fn missing_words(cmd: Seq<char>, package_hint: Seq<char>) -> Seq<char> {
    cmd + " not found in PATH. Install "@ + package_hint + "."@
}

/// Requires a program; `available` is whether it was found.
pub fn require(cmd: &str, package_hint: &str, available: bool) -> (checked: Result<(), String>)
    ensures
        match checked {
            Ok(_) => available,
            Err(message) => !available && message@ == missing_words(cmd@, package_hint@),
        },
{
    if available {
        return Ok(());
    }
    let mut message = cmd.to_owned();
    message.append(" not found in PATH. Install ");
    message.append(package_hint);
    message.append(".");
    Err(message)
}

/// What is said of a program that failed: what it wrote to its error output, or its exit code
/// where it wrote nothing; and of one that is not installed, how to get it.
pub proof fn law_how_failures_are_told(
    cmd: Seq<char>,
    stderr: Seq<char>,
    code: Option<i32>,
    hint: Seq<char>,
)
    ensures
        trimmed(stderr).len() == 0 ==> failure_words(cmd, stderr, code) == cmd
            + " failed with exit code "@ + code_words(code),
        trimmed(stderr).len() > 0 ==> failure_words(cmd, stderr, code) == cmd + " failed: "@
            + trimmed(stderr),
        missing_words(cmd, hint) == cmd + " not found in PATH. Install "@ + hint + "."@,
{
}

/// A program is run exactly with the arguments that are given, each in its place.
pub proof fn law_arguments_are_exact(
    command: Invocation,
    program: Seq<char>,
    args: Seq<Seq<char>>,
)
    ensures
        command.runs(program, args) <==> {
            &&& command.program@ == program
            &&& command.args@.len() == args.len()
            &&& forall|i: int| 0 <= i < args.len() ==> (#[trigger] command.args@[i])@ == args[i]
        },
{
    if command.args@.len() == args.len() && (forall|i: int|
        0 <= i < args.len() ==> (#[trigger] command.args@[i])@ == args[i]) {
        assert forall|i: int| 0 <= i < args.len() implies texts(command.args@)[i] == args[i] by {
            assert(command.args@[i]@ == args[i]);
        }
        assert(texts(command.args@) =~= args);
    }
    if texts(command.args@) == args {
        assert forall|i: int| 0 <= i < args.len() implies (#[trigger] command.args@[i])@
            == args[i] by {
            assert(texts(command.args@)[i] == args[i]);
        }
    }
}

} // verus!
