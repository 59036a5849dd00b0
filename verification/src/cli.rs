//! The command-line surface: what to watch and what to run.
//!
//! The values themselves come from the process arguments, which the
//! surrounding application parses; this type holds them and decides which
//! command the watcher relaunches.

use vstd::prelude::*;

verus! {

/// The arguments: a watch pattern, and either a script or a command.
#[derive(Debug, PartialEq)]
pub struct Cli {
    /// Changes to watch
    pub watch: String,
    /// Script to run
    pub script: Option<String>,
    /// Command to run
    pub cmd: Option<Vec<String>>,
}

pub open spec fn msg_script_or_command() -> Seq<char> {
    "Expected either a script or a command"@
}

/// The command to run: the explicit command as given; a script behind
/// its interpreter lookup, with the script path appended; both or
/// neither is an error, and a failed lookup reports its own reason.
pub open spec fn spec_command(
    cmd: Option<Seq<Seq<char>>>,
    script: Option<Seq<char>>,
    interpreter: Result<Seq<Seq<char>>, Seq<char>>,
) -> Result<Seq<Seq<char>>, Seq<char>> {
    match (cmd, script) {
        (Some(_), Some(_)) => Err(msg_script_or_command()),
        (None, None) => Err(msg_script_or_command()),
        (Some(v), None) => Ok(v),
        (None, Some(s)) => match interpreter {
            Ok(v) => Ok(v.push(s)),
            Err(e) => Err(e),
        },
    }
}

/// Copies a list of strings.
fn clone_strings(v: &Vec<String>) -> (r: Vec<String>)
    ensures
        r@ == v@,
{
    let mut r: Vec<String> = Vec::new();
    let mut i: usize = 0;
    while i < v.len()
        invariant
            i <= v@.len(),
            r@ == v@.take(i as int),
        decreases v@.len() - i,
    {
        r.push(v[i].clone());
        proof {
            assert(v@.take(i + 1 as int) =~= v@.take(i as int).push(v@[i as int]));
        }
        i += 1;
    }
    proof {
        assert(v@.take(v@.len() as int) =~= v@);
    }
    r
}

impl Cli {
    /// Holds the parsed arguments.
    pub fn new(watch: String, script: Option<String>, cmd: Option<Vec<String>>) -> (r: Self)
        ensures
            r.watch == watch,
            r.script == script,
            r.cmd == cmd,
    {
        Cli { watch, script, cmd }
    }

    /// The command the watcher relaunches, as [`spec_command`] states.
    /// `interpreter` is the outcome of looking up the script's
    /// interpreter from its shebang lines; it only matters when a script
    /// and no command was given.
    pub fn command(&self, interpreter: Result<Vec<String>, String>) -> (r: Result<
        Vec<String>,
        String,
    >)
        ensures
            ({
                let spec = spec_command(
                    self.cmd.deep_view(),
                    self.script.deep_view(),
                    match interpreter {
                        Ok(v) => Ok(v.deep_view()),
                        Err(e) => Err(e@),
                    },
                );
                match r {
                    Ok(v) => spec is Ok && v.deep_view() == spec->Ok_0,
                    Err(e) => spec is Err && e@ == spec->Err_0,
                }
            }),
    {
        match (&self.cmd, &self.script) {
            (Some(_), Some(_)) => Err("Expected either a script or a command".to_owned()),
            (None, None) => Err("Expected either a script or a command".to_owned()),
            (Some(v), None) => {
                let out = clone_strings(v);
                proof {
                    assert(out.deep_view() =~= v.deep_view());
                }
                Ok(out)
            },
            (None, Some(script)) => match interpreter {
                Ok(v) => {
                    let ghost vv = v.deep_view();
                    let mut v = v;
                    v.push(script.clone());
                    proof {
                        assert(v.deep_view() =~= vv.push(script@));
                    }
                    Ok(v)
                },
                Err(e) => Err(e),
            },
        }
    }
}

} // verus!
