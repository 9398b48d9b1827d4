use vstd::prelude::*;
use vstd::string::*;

verus! {

/// Where certificates go, under the base directory, unless configured.
pub const CERTIFICATE_DIR_NAME: &'static str = "certificates";

/// Where application services keep their resources, unless configured.
pub const SERVICES_DIR_NAME: &'static str = "services";

/// Where the interpreter keeps its files, unless configured.
pub const STEPPER_DIR_NAME: &'static str = "stepper";

/// The interpreter module's file, unless configured.
pub const AIR_INTERPRETER_FILE_NAME: &'static str = "aquamarine.wasm";

/// `name` appended to `base` as one more path component.
pub open spec fn join_spec(base: Seq<char>, name: Seq<char>) -> Seq<char> {
    if base.len() == 0 {
        name
    } else if base.last() == '/' {
        base + name
    } else {
        base + seq!['/'] + name
    }
}

/// Appends the relative component `name` to the path `base`, with one separator
/// between them.
pub fn join_path(base: &String, name: &str) -> (r: String)
    ensures
        r@ == join_spec(base@, name@),
{
    let n = base.as_str().unicode_len();
    if n == 0 {
        String::from_str(name)
    } else if base.as_str().get_char(n - 1) == '/' {
        base.clone().concat(name)
    } else {
        proof {
            reveal_strlit("/");
        }
        base.clone().concat("/").concat(name)
    }
}

/// The node's directories as configured: any left out default to a place under
/// `base_dir`.
pub struct UnresolvedDirConfig {
    /// Parent directory of all the node's other directories.
    pub base_dir: String,
    /// Where certificates are stored.
    pub certificate_dir: Option<String>,
    /// Base directory for the resources of application services.
    pub services_base_dir: Option<String>,
    /// Base directory for the interpreter's files.
    pub stepper_base_dir: Option<String>,
    /// Path to the interpreter's .wasm module.
    pub air_interpreter_path: Option<String>,
}

/// The node's directories, each one settled.
pub struct ResolvedDirConfig {
    pub base_dir: String,
    pub certificate_dir: String,
    pub services_base_dir: String,
    pub stepper_base_dir: String,
    pub air_interpreter_path: String,
}

/// The configured path, or else `name` under `base`.
pub open spec fn or_default(o: Option<String>, base: Seq<char>, name: Seq<char>) -> Seq<char> {
    match o {
        Some(p) => p@,
        None => join_spec(base, name),
    }
}

fn resolve_one(o: Option<String>, base: &String, name: &str) -> (r: String)
    ensures
        r@ == or_default(o, base@, name@),
{
    match o {
        Some(p) => p,
        None => join_path(base, name),
    }
}

impl UnresolvedDirConfig {
    /// Settles each directory left out to its default under `base_dir`.
    pub fn resolve(self) -> (r: ResolvedDirConfig)
        ensures
            r.base_dir@ == self.base_dir@,
            r.certificate_dir@ == or_default(
                self.certificate_dir,
                self.base_dir@,
                CERTIFICATE_DIR_NAME@,
            ),
            r.services_base_dir@ == or_default(
                self.services_base_dir,
                self.base_dir@,
                SERVICES_DIR_NAME@,
            ),
            r.stepper_base_dir@ == or_default(
                self.stepper_base_dir,
                self.base_dir@,
                STEPPER_DIR_NAME@,
            ),
            r.air_interpreter_path@ == or_default(
                self.air_interpreter_path,
                self.base_dir@,
                AIR_INTERPRETER_FILE_NAME@,
            ),
    {
        let base = self.base_dir;
        let certificate_dir = resolve_one(self.certificate_dir, &base, CERTIFICATE_DIR_NAME);
        let services_base_dir = resolve_one(self.services_base_dir, &base, SERVICES_DIR_NAME);
        let stepper_base_dir = resolve_one(self.stepper_base_dir, &base, STEPPER_DIR_NAME);
        let air_interpreter_path = resolve_one(
            self.air_interpreter_path,
            &base,
            AIR_INTERPRETER_FILE_NAME,
        );
        ResolvedDirConfig {
            base_dir: base,
            certificate_dir,
            services_base_dir,
            stepper_base_dir,
            air_interpreter_path,
        }
    }
}

impl ResolvedDirConfig {
    /// The directories that must exist before the node starts, in the order to
    /// create them.
    pub fn dirs_to_create(&self) -> (r: Vec<String>)
        ensures
            r@.len() == 3,
            r@[0]@ == self.base_dir@,
            r@[1]@ == self.certificate_dir@,
            r@[2]@ == self.stepper_base_dir@,
    {
        let mut r: Vec<String> = Vec::new();
        r.push(self.base_dir.clone());
        r.push(self.certificate_dir.clone());
        r.push(self.stepper_base_dir.clone());
        r
    }
}

} // verus!
