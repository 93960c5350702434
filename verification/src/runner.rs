//! Running the agent's command line: its arguments and environment, and
//! what a run returns.
use vstd::prelude::*;
use crate::text::trim;
use crate::text;
use crate::cli::strings_view;

verus! {

/// Without both the interpreter and the launcher the agent cannot run.
pub fn check_installed(python_exists: bool, script_exists: bool) -> (r: Result<(), String>)
    ensures
        (python_exists && script_exists) ==> r is Ok,
        !(python_exists && script_exists) ==> (r matches Err(e)
            && e@ == "Hermes Agent is not installed. Please complete the installation first."@),
{
    if !python_exists || !script_exists {
        Err(text::owned("Hermes Agent is not installed. Please complete the installation first."))
    } else {
        Ok(())
    }
}

/// The interpreter's arguments (the launcher, then the command's), and the
/// environment: the Hermes home, and the profile when one is given.
pub fn cli_invocation(script: &str, args: &[&str], hermes_home: &str, profile: Option<&str>) -> (r: (Vec<String>, Vec<(String, String)>))
    ensures
        strings_view(r.0@) == seq![script@] + args@.map_values(|a: &str| a@),
        r.1@.map_values(|p: (String, String)| (p.0@, p.1@)) == seq![("HERMES_HOME"@, hermes_home@)] + match profile {
            Some(p) => seq![("HERMES_PROFILE"@, p@)],
            None => seq![],
        },
{
    let mut a: Vec<String> = Vec::new();
    a.push(text::owned(script));
    let mut i: usize = 0;
    assert(strings_view(a@) =~= seq![script@] + args@.map_values(|x: &str| x@).take(0));
    while i < args.len()
        invariant
            i <= args.len(),
            strings_view(a@) =~= seq![script@] + args@.map_values(|x: &str| x@).take(i as int),
        decreases args.len() - i,
    {
        let ghost before = a@;
        let s = text::owned(args[i]);
        a.push(s);
        assert(strings_view(a@) =~= strings_view(before).push(s@));
        assert(args@.map_values(|x: &str| x@).take(i + 1) =~= args@.map_values(|x: &str| x@).take(i as int).push(args@[i as int]@));
        i += 1;
    }
    assert(args@.map_values(|x: &str| x@).take(args.len() as int) =~= args@.map_values(|x: &str| x@));
    let mut env: Vec<(String, String)> = Vec::new();
    env.push((text::owned("HERMES_HOME"), text::owned(hermes_home)));
    match profile {
        Some(p) => env.push((text::owned("HERMES_PROFILE"), text::owned(p))),
        None => {},
    }
    assert(env@.map_values(|p: (String, String)| (p.0@, p.1@)) =~= seq![("HERMES_HOME"@, hermes_home@)] + match profile {
        Some(p) => seq![("HERMES_PROFILE"@, p@)],
        None => seq![],
    });
    (a, env)
}

/// What a run returns: the trimmed output on success (an error when it is
/// not UTF-8), else the trimmed error output.
pub fn cli_outcome(success: bool, stdout: Result<String, String>, stderr: &str, with_input: bool) -> (r: Result<String, String>)
    ensures
        success ==> match stdout {
            Ok(o) => r matches Ok(x) && x@ == trim(o@),
            Err(e) => r matches Err(m) && m@ == (if with_input { "Invalid UTF-8: "@ } else { "Invalid UTF-8 output: "@ }) + e@,
        },
        !success ==> (r matches Err(m) && m@ == "Hermes CLI error: "@ + trim(stderr@)),
{
    if success {
        match stdout {
            Ok(o) => Ok(text::trim_str(o.as_str())),
            Err(e) => {
                if with_input {
                    Err(text::concat2("Invalid UTF-8: ", e.as_str()))
                } else {
                    Err(text::concat2("Invalid UTF-8 output: ", e.as_str()))
                }
            },
        }
    } else {
        let t = text::trim_str(stderr);
        Err(text::concat2("Hermes CLI error: ", t.as_str()))
    }
}

} // verus!
