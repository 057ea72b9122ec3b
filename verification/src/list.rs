//! The `list` action: its parameters, and how they are made from the
//! command line's arguments and the settings.

use vstd::prelude::*;
use crate::settings::Settings;

verus! {

#[verifier::external_type_specification]
#[verifier::external_body]
pub struct ExReport(miette::Report);

/// The parameters of the action.
#[derive(Debug)]
pub struct Parameters {
    pub repository_path: String,
    pub repository_url: String,
}

/// What the action gives back.
#[derive(Debug)]
pub struct Result {}

/// What the action fails with.
pub struct ListError {
    pub base: miette::Report,
}

/// The arguments of the `list` command, each overriding a setting.
#[derive(Debug)]
pub struct ListArgs {
    pub repository_path: Option<String>,
    pub repository_url: Option<String>,
}

/// Runs the action. It has nothing to do yet, and succeeds.
pub fn run(parameters: &Parameters) -> (r: std::result::Result<Result, ListError>)
    ensures
        r is Ok,
{
    Ok(Result {  })
}

/// The parameters for the given arguments: each argument where it is given,
/// the setting where it is not.
pub fn make_parameters(args: ListArgs, settings: &Settings) -> (r: Parameters)
    ensures
        r.repository_path@ == match args.repository_path {
            Some(path) => path@,
            None => settings.global_repository_path@,
        },
        r.repository_url@ == match args.repository_url {
            Some(url) => url@,
            None => settings.repository_url@,
        },
{
    Parameters {
        repository_path: match args.repository_path {
            Some(path) => path,
            None => settings.global_repository_path.clone(),
        },
        repository_url: match args.repository_url {
            Some(url) => url,
            None => settings.repository_url.clone(),
        },
    }
}

} // verus!
