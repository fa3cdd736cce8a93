//! Where one run stages and persists its artifacts.
//!
//! Each run stages the fetched template and parameter file in a scratch
//! directory whose name carries a fresh random suffix, so that concurrent
//! runs and stale leftovers of earlier runs can never be mistaken for the
//! current state. The optional durable copy goes to a directory named
//! after the stack in the current working directory.

use vstd::prelude::*;
use vstd::string::StringExecFns;
use rand::Rng;

verus! {

/// Every filesystem location one run works with. The scratch locations
/// live under the temp root; the target locations under the current
/// working directory. The run's shell creates the directories and reports
/// failures as its own errors.
pub struct CfnLocations {
    pub tmp_directory: String,
    pub tmp_cfn_template_location: String,
    pub tmp_cfn_parameters_location: String,
    pub target_directory: String,
    pub target_cfn_template_location: String,
    pub target_cfn_parameters_location: String,
}

/// The scratch directory of a run: the stack name and the run's suffix
/// under the temp root.
pub open spec fn scratch_dir_spec(tmp_base: Seq<char>, stack_name: Seq<char>, suffix: Seq<char>)
    -> Seq<char> {
    tmp_base + "/"@ + stack_name + "-"@ + suffix
}

/// The template file of a directory, named after the stack.
pub open spec fn template_file_spec(dir: Seq<char>, stack_name: Seq<char>) -> Seq<char> {
    dir + "/"@ + stack_name + ".yaml"@
}

/// The parameter file of a directory.
pub open spec fn parameters_file_spec(dir: Seq<char>) -> Seq<char> {
    dir + "/"@ + "parameters.json"@
}

/// What every field of a location set must be, given the temp root, the
/// stack name and the scratch suffix.
pub open spec fn locations_spec(
    l: CfnLocations,
    tmp_base: Seq<char>,
    stack_name: Seq<char>,
    suffix: Seq<char>,
) -> bool {
    &&& l.tmp_directory@ == scratch_dir_spec(tmp_base, stack_name, suffix)
    &&& l.tmp_cfn_template_location@ == template_file_spec(
        scratch_dir_spec(tmp_base, stack_name, suffix),
        stack_name,
    )
    &&& l.tmp_cfn_parameters_location@ == parameters_file_spec(
        scratch_dir_spec(tmp_base, stack_name, suffix),
    )
    &&& l.target_directory@ == stack_name
    &&& l.target_cfn_template_location@ == template_file_spec(stack_name, stack_name)
    &&& l.target_cfn_parameters_location@ == parameters_file_spec(stack_name)
}

/// A character a scratch suffix may hold.
pub open spec fn is_alphanumeric_ascii(c: char) -> bool {
    ('0' <= c && c <= '9') || ('a' <= c && c <= 'z') || ('A' <= c && c <= 'Z')
}

/// Relies on rand's thread_rng with the Alphanumeric distribution: sampling
/// it yields uniformly random characters out of 0-9, a-z and A-Z, and
/// taking `len` of them yields exactly `len`. Nothing is assumed about
/// which characters come out.
#[verifier::external_body]
fn random_alphanumeric(len: usize) -> (r: String)
    ensures
        r@.len() == len,
        forall|i: int| 0 <= i < r@.len() ==> is_alphanumeric_ascii(#[trigger] r@[i]),
{
    rand::thread_rng()
        .sample_iter(rand::distributions::Alphanumeric)
        .take(len)
        .map(char::from)
        .collect()
}

impl CfnLocations {
    /// Compute every artifact location of one run from the temp root, the
    /// stack name and the run's scratch suffix.
    pub fn init(tmp_base: &str, stack_name: &String, suffix: &str) -> (r: CfnLocations)
        ensures
            locations_spec(r, tmp_base@, stack_name@, suffix@),
    {
        let mut tmp_directory = String::new();
        tmp_directory.append(tmp_base);
        tmp_directory.append("/");
        tmp_directory.append(stack_name.as_str());
        tmp_directory.append("-");
        tmp_directory.append(suffix);

        let mut tmp_cfn_template_location = tmp_directory.clone();
        tmp_cfn_template_location.append("/");
        tmp_cfn_template_location.append(stack_name.as_str());
        tmp_cfn_template_location.append(".yaml");

        let mut tmp_cfn_parameters_location = tmp_directory.clone();
        tmp_cfn_parameters_location.append("/");
        tmp_cfn_parameters_location.append("parameters.json");

        let target_directory = stack_name.clone();

        let mut target_cfn_template_location = stack_name.clone();
        target_cfn_template_location.append("/");
        target_cfn_template_location.append(stack_name.as_str());
        target_cfn_template_location.append(".yaml");

        let mut target_cfn_parameters_location = stack_name.clone();
        target_cfn_parameters_location.append("/");
        target_cfn_parameters_location.append("parameters.json");

        CfnLocations {
            tmp_directory,
            tmp_cfn_template_location,
            tmp_cfn_parameters_location,
            target_directory,
            target_cfn_template_location,
            target_cfn_parameters_location,
        }
    }
}

/// Compute the location set for a fresh run: the scratch directory name
/// carries a ten-character random alphanumeric suffix after the stack
/// name. Which suffix is drawn is not specified; that two runs draw the
/// same one is negligibly likely, and distinct suffixes give distinct
/// scratch directories (`lemma_scratch_dirs_distinct`).
pub fn allocate_scratch(tmp_base: &str, stack_name: &String) -> (r: CfnLocations)
    ensures
        exists|sfx: Seq<char>|
            #[trigger] locations_spec(r, tmp_base@, stack_name@, sfx) && sfx.len() == 10 && (
            forall|i: int| 0 <= i < sfx.len() ==> is_alphanumeric_ascii(#[trigger] sfx[i])),
{
    let suffix = random_alphanumeric(10);
    let r = CfnLocations::init(tmp_base, stack_name, suffix.as_str());
    proof {
        assert(locations_spec(r, tmp_base@, stack_name@, suffix@));
    }
    r
}

/// Two runs on the same stack whose scratch suffixes differ anywhere get
/// different scratch directories.
pub proof fn lemma_scratch_dirs_distinct(
    tmp_base: Seq<char>,
    stack_name: Seq<char>,
    s1: Seq<char>,
    s2: Seq<char>,
)
    requires
        s1.len() == s2.len(),
        s1 != s2,
    ensures
        scratch_dir_spec(tmp_base, stack_name, s1) != scratch_dir_spec(tmp_base, stack_name, s2),
{
    let p = tmp_base + "/"@ + stack_name + "-"@;
    let d1 = scratch_dir_spec(tmp_base, stack_name, s1);
    let d2 = scratch_dir_spec(tmp_base, stack_name, s2);
    assert(d1 =~= p + s1);
    assert(d2 =~= p + s2);
    if d1 == d2 {
        assert forall|i: int| 0 <= i < s1.len() implies s1[i] == s2[i] by {
            assert((p + s1)[p.len() + i] == s1[i]);
            assert((p + s2)[p.len() + i] == s2[i]);
        }
        assert(s1 =~= s2);
    }
}

} // verus!
