//! Asking Cargo where its target directory is.

use crate::error::Error;
use crate::outside::{json_parse, lossy_text, utf8_lossy, Json};
use crate::path::{copy_bytes, os, path_parts, FsPath};
use crate::staging::{read_text_member, text_field, text_member};
use crate::text::{is_white_space, trim, trimmed_back, trimmed_front};
use crate::text_laws::law_what_is_trimmed;
use vstd::prelude::*;
use vstd::string::*;
use vstd::utf8::encode_utf8;

verus! {

/// A program to run, and in which directory.
#[derive(Debug)]
pub struct Invocation {
    pub program: Vec<u8>,
    pub args: Vec<&'static str>,
    /// The directory to run in, where it is not this process's own.
    pub cwd: Option<FsPath>,
}

/// How Cargo is asked about the workspace containing `cwd`.
///
/// Asked of Cargo rather than assumed to be `./target`: it moves with
/// `build.target-dir`, with `CARGO_TARGET_DIR`, and with which package in a
/// workspace the caller happens to be standing in. `cargo` is the toolchain that
/// invoked this one, where there is one; naming it is what keeps the answer
/// consistent with the build that follows.
pub fn metadata_command(cargo: Option<Vec<u8>>, cwd: Option<FsPath>) -> (r: Invocation)
    ensures
        r.program@ == match cargo {
            Some(program) => program@,
            None => os("cargo"),
        },
        r.args@ == seq!["metadata", "--format-version", "1", "--no-deps"],
        r.cwd == cwd,
{
    let program = match cargo {
        Some(program) => program,
        None => copy_bytes("cargo".as_bytes()),
    };
    let mut args: Vec<&'static str> = Vec::new();
    args.push("metadata");
    args.push("--format-version");
    args.push("1");
    args.push("--no-deps");
    assert(args@ =~= seq!["metadata", "--format-version", "1", "--no-deps"]);
    Invocation { program, args, cwd }
}

/// What a program that was run left behind.
#[derive(Debug)]
pub struct Output {
    pub success: bool,
    pub stdout: Vec<u8>,
    pub stderr: Vec<u8>,
}

/// What Cargo says of its target directory, from what came of asking it.
pub fn workspace_target_dir(ran: Result<Output, std::io::Error>) -> (r: Result<FsPath, Error>)
    ensures
        match ran {
            Err(source) => r == Err::<FsPath, Error>(Error::MetadataSpawn(source)),
            Ok(output) => if !output.success {
                r matches Err(e) && is_refusal(utf8_lossy(output.stderr@), e)
            } else {
                match json_parse(output.stdout@) {
                    None => r matches Err(Error::MetadataParse(_)),
                    Some(document) => is_target_dir(text_member(document, "target_directory"@), r),
                }
            },
        },
{
    let output = match ran {
        Ok(output) => output,
        Err(source) => {
            return Err(Error::MetadataSpawn(source));
        },
    };
    if !output.success {
        return Err(refusal(lossy_text(output.stderr.as_slice()).as_str()));
    }
    match read_text_member(output.stdout.as_slice(), "target_directory") {
        Ok(said) => target_dir(said),
        Err(source) => Err(Error::MetadataParse(source)),
    }
}

/// The error of a Cargo that failed and said that, without the white space
/// around it.
pub open spec fn is_refusal(stderr: Seq<char>, e: Error) -> bool {
    e matches Error::MetadataFailed(said) && said@ == trimmed_back(trimmed_front(stderr))
}

/// The error of a Cargo that failed and said that.
pub fn refusal(stderr: &str) -> (r: Error)
    ensures
        is_refusal(stderr@, r),
{
    Error::MetadataFailed(trim(stderr))
}

/// The target directory is what was said, where anything was.
pub open spec fn is_target_dir(said: Option<Seq<char>>, r: Result<FsPath, Error>) -> bool {
    match said {
        Some(said) => r matches Ok(path) && path@ == path_parts(encode_utf8(said)),
        None => r == Err::<FsPath, Error>(Error::MetadataNoTargetDir),
    }
}

/// The target directory that Cargo named, where it named one.
pub fn target_dir(said: Option<String>) -> (r: Result<FsPath, Error>)
    ensures
        is_target_dir(text_field(said), r),
{
    match said {
        Some(said) => Ok(FsPath::parse(said.as_str().as_bytes())),
        None => Err(Error::MetadataNoTargetDir),
    }
}

/// The target directory is the member `target_directory` of what Cargo printed, a
/// text, read as a path; without such a member there is none.
pub proof fn law_the_target_directory_is_what_cargo_printed(
    members: Map<Seq<char>, Json>,
    said: Seq<char>,
    r: Result<FsPath, Error>,
)
    requires
        is_target_dir(text_member(Json::Object(members), "target_directory"@), r),
    ensures
        r matches Ok(path) ==> {
            &&& members.dom().contains("target_directory"@)
            &&& members["target_directory"@] matches Json::Text(text)
            &&& path@ == path_parts(encode_utf8(text))
        },
        members.dom().contains("target_directory"@) && members["target_directory"@] == Json::Text(
            said,
        ) ==> (r matches Ok(path) && path@ == path_parts(encode_utf8(said))),
        r matches Err(e) ==> e is MetadataNoTargetDir,
{
}

/// What Cargo said when it failed is a part of what it printed, with nothing but
/// white space around it, and with none at its own ends.
pub proof fn law_what_cargo_said_is_kept(stderr: Seq<char>, e: Error)
    requires
        is_refusal(stderr, e),
    ensures
        e matches Error::MetadataFailed(said) && {
            &&& exists|a: int|
                #![trigger stderr.subrange(a, a + said@.len())]
                {
                    &&& 0 <= a <= a + said@.len() <= stderr.len()
                    &&& said@ == stderr.subrange(a, a + said@.len())
                    &&& forall|i: int| 0 <= i < a ==> is_white_space(#[trigger] stderr[i])
                    &&& forall|i: int|
                        a + said@.len() <= i < stderr.len() ==> is_white_space(
                            #[trigger] stderr[i],
                        )
                }
            &&& said@.len() > 0 ==> !is_white_space(said@[0]) && !is_white_space(said@.last())
        },
{
    law_what_is_trimmed(stderr);
}

} // verus!
