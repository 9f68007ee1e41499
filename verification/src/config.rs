use vstd::prelude::*;
use vstd::string::StringExecFns;

verus! {

/// The line width used where no configuration file says otherwise.
pub const DEFAULT_LINE_WIDTH: usize = 100;

/// The settings that a `.rbfmt.yml` file holds.
#[derive(Debug)]
pub struct Config {
    pub format: FormatConfig,
}

/// The `format:` section of a configuration file.
#[derive(Debug)]
pub struct FormatConfig {
    pub line_width: usize,
}

impl Default for FormatConfig {
    fn default() -> (c: FormatConfig)
        ensures
            c.line_width == DEFAULT_LINE_WIDTH,
    {
        FormatConfig { line_width: DEFAULT_LINE_WIDTH }
    }
}

impl Default for Config {
    fn default() -> (c: Config)
        ensures
            c.format.line_width == DEFAULT_LINE_WIDTH,
    {
        Config { format: FormatConfig::default() }
    }
}

/// Where the search for the configuration of a file stands.
#[derive(Debug)]
pub enum ConfigStep {
    /// See whether `candidate`, the configuration file of directory `dir`, exists.
    Probe { dir: String, candidate: String },
    /// Read the configuration from this file.
    Load { path: String },
    /// No configuration file applies: use the defaults.
    UseDefault,
}

/// The name of the configuration file looked for in each directory.
pub open spec fn config_file_name() -> Seq<char> {
    seq!['.', 'r', 'b', 'f', 'm', 't', '.', 'y', 'm', 'l']
}

/// `p` is the parent of some path written as `path`: a strictly shorter prefix of it.
pub open spec fn is_shorter_prefix(p: Seq<char>, path: Seq<char>) -> bool {
    p.len() < path.len() && p =~= path.subrange(0, p.len() as int)
}

/// A plain file name: not empty, not `.` or `..`, and without separators or a drive
/// prefix.
pub open spec fn is_plain_file_name(name: Seq<char>) -> bool {
    &&& name.len() > 0
    &&& name != seq!['.']
    &&& name != seq!['.', '.']
    &&& forall|i: int| 0 <= i < name.len() ==> name[i] != '/' && name[i] != '\\' && name[i] != ':'
}

/// A plain directory path, relative or from the root `/`: not empty, not ending in `/`,
/// with no `\\`, no `:`, no `//`, and no component that is a lone `.`.
pub open spec fn is_plain_dir(d: Seq<char>) -> bool {
    &&& d.len() > 0
    &&& d.last() != '/'
    &&& forall|i: int| 0 <= i < d.len() ==> d[i] != '\\' && d[i] != ':'
    &&& forall|i: int| 0 <= i < d.len() - 1 ==> !(#[trigger] d[i] == '/' && d[i + 1] == '/')
    &&& forall|i: int|
        0 <= i < d.len() && #[trigger] d[i] == '.' && (i == 0 || d[i - 1] == '/') ==> i + 1 < d.len() && d[i
            + 1] != '/'
}

/// What the documentation of `Path::parent` says of a path given as text, on Unix and
/// on Windows alike: the empty path and the root have no parent; a plain file name has
/// the empty path as its parent; `/` followed by a name has the root; a plain
/// directory, `/` and a name has that directory. Any parent is a shorter prefix.
pub open spec fn documented_parent(path: Seq<char>, r: Option<Seq<char>>) -> bool {
    &&& (path.len() == 0 || path == seq!['/']) ==> r is None
    &&& is_plain_file_name(path) ==> r == Some(Seq::<char>::empty())
    &&& forall|name: Seq<char>| #[trigger] is_plain_file_name(name) && path == seq!['/'] + name ==> r == Some(seq!['/'])
    &&& forall|d: Seq<char>, name: Seq<char>|
        #![trigger is_plain_dir(d), is_plain_file_name(name)]
        is_plain_dir(d) && is_plain_file_name(name) && path == d + seq!['/'] + name ==> r == Some(d)
    &&& r matches Some(p) ==> is_shorter_prefix(p, path)
}

/// The text of an optional path.
pub open spec fn opt_chars(r: Option<String>) -> Option<Seq<char>> {
    match r {
        Some(p) => Some(p@),
        None => None,
    }
}

/// `std::path::Path::parent`, on a path given as text.
///
/// The documentation says that the parent is the path without its final component,
/// and `None` where the path ends in a root or a prefix or is empty. The contract
/// claims that on the plain paths of `documented_parent`; how other text (with
/// drive prefixes, `.` components or doubled separators) splits into components
/// depends on the platform and is left unsaid, beyond a parent being a shorter prefix.
#[verifier::external_body]
fn path_parent(path: &str) -> (r: Option<String>)
    ensures
        documented_parent(path@, opt_chars(r)),
{
    std::path::Path::new(path).parent().map(|p| p.to_string_lossy().into_owned())
}

/// `std::path::Path::join`, on a directory given as text and a plain file name.
///
/// The contract claims that the result starts with the directory and ends with the
/// name, as joining a relative name does; the separator put between them depends on
/// the platform and is left unsaid.
#[verifier::external_body]
fn path_join(base: &str, name: &str) -> (r: String)
    requires
        is_plain_file_name(name@),
    ensures
        base@.len() + name@.len() <= r@.len(),
        r@.subrange(0, base@.len() as int) == base@,
        r@.subrange(r@.len() - name@.len(), r@.len() as int) == name@,
{
    std::path::Path::new(base).join(name).to_string_lossy().into_owned()
}

/// `candidate` names the configuration file in directory `dir`: the directory, then
/// the file name.
pub open spec fn is_candidate_in(candidate: Seq<char>, dir: Seq<char>) -> bool {
    &&& dir.len() + config_file_name().len() <= candidate.len()
    &&& candidate.subrange(0, dir.len() as int) == dir
    &&& candidate.subrange(candidate.len() - config_file_name().len(), candidate.len() as int)
        == config_file_name()
}

/// `step` probes the configuration file of directory `dir`.
pub open spec fn probes(step: ConfigStep, dir: Seq<char>) -> bool {
    match step {
        ConfigStep::Probe { dir: d, candidate } => d@ == dir && is_candidate_in(candidate@, dir),
        _ => false,
    }
}

/// `step` loads the file `path`.
pub open spec fn loads(step: ConfigStep, path: Seq<char>) -> bool {
    match step {
        ConfigStep::Load { path: p } => p@ == path,
        _ => false,
    }
}

/// The search for the configuration of the directory `dir_path`: its configuration
/// file first, then those of the directories above it.
pub fn config_of_dir(dir_path: &str) -> (step: ConfigStep)
    ensures
        probes(step, dir_path@),
{
    let name = String::from_str(".rbfmt.yml");
    proof {
        reveal_strlit(".rbfmt.yml");
        assert(name@ =~= config_file_name());
        assert(name@ != seq!['.']);
        assert(name@ != seq!['.', '.']);
        assert(is_plain_file_name(name@));
    }
    let candidate = path_join(dir_path, name.as_str());
    ConfigStep::Probe { dir: String::from_str(dir_path), candidate }
}

/// The first step for a file whose directory is `parent`: search from there, or use
/// the defaults when the file has no directory.
pub fn first_config_step(parent: Option<String>) -> (step: ConfigStep)
    ensures
        parent is None ==> step is UseDefault,
        parent matches Some(dir) ==> probes(step, dir@),
{
    match parent {
        Some(dir) => config_of_dir(dir.as_str()),
        None => ConfigStep::UseDefault,
    }
}

/// The directory that a step searches, if it is a probe.
pub open spec fn searched_dir(step: ConfigStep) -> Option<Seq<char>> {
    match step {
        ConfigStep::Probe { dir, .. } => Some(dir@),
        _ => None,
    }
}

/// Where the configuration of the file `file_path` is looked for first: in the
/// directory that holds it, the parent of the path; a path without a parent gets the
/// defaults.
pub fn config_of_path(file_path: &str) -> (step: ConfigStep)
    ensures
        step !is Load,
        documented_parent(file_path@, searched_dir(step)),
        step matches ConfigStep::Probe { dir, .. } ==> probes(step, dir@),
{
    first_config_step(path_parent(file_path))
}

/// After probing: an existing `candidate` is loaded; otherwise the search goes on in
/// `dir_parent`, the directory above, or ends with the defaults at the top.
pub fn next_config_step(candidate: String, exists: bool, dir_parent: Option<String>) -> (step:
    ConfigStep)
    ensures
        exists ==> loads(step, candidate@),
        !exists && dir_parent is None ==> step is UseDefault,
        !exists ==> (dir_parent matches Some(p) ==> probes(step, p@)),
{
    if exists {
        ConfigStep::Load { path: candidate }
    } else {
        first_config_step(dir_parent)
    }
}

/// The directory above `dir`, where the search goes on: its parent, a strictly shorter
/// prefix of it, so that the search ends.
pub fn parent_dir(dir: &str) -> (r: Option<String>)
    ensures
        documented_parent(dir@, opt_chars(r)),
{
    path_parent(dir)
}

} // verus!
