//! The execution request, its result, and the runner that carries one out.
use vstd::prelude::*;

verus! {

/// `-E name=path`: where an external package lives.
#[derive(Clone, Debug)]
pub struct CmdExternalPkgSpec {
    pub pkg_name: String,
    pub pkg_path: String,
}

/// `-D name=value`: a top-level option binding.
#[derive(Clone, Debug)]
pub struct CmdArgSpec {
    pub name: String,
    pub value: String,
}

#[derive(Clone, Copy, Debug, PartialEq, Eq, Structural)]
pub enum OverrideAction {
    Delete,
    CreateOrUpdate,
}

/// `-O pkg:path=value` or `-O pkg:path-`: an override of a field.
#[derive(Clone, Debug)]
pub struct OverrideSpec {
    pub pkgpath: String,
    pub field_path: String,
    pub field_value: String,
    pub action: OverrideAction,
}

/// The configuration of one execution request.
#[derive(Clone, Debug)]
pub struct ExecProgramArgs {
    pub work_dir: Option<String>,
    pub k_filename_list: Vec<String>,
    pub external_pkgs: Vec<CmdExternalPkgSpec>,
    pub k_code_list: Vec<String>,
    pub args: Vec<CmdArgSpec>,
    pub overrides: Vec<OverrideSpec>,
    pub path_selector: Vec<String>,
    pub disable_yaml_result: bool,
    pub print_override_ast: bool,
    pub strict_range_check: bool,
    pub disable_none: bool,
    pub verbose: i32,
    pub debug: i32,
    pub sort_keys: bool,
    pub include_schema_type_path: bool,
    pub compile_only: bool,
    pub recursive: bool,
    /// The address of the host's plugin callback; zero means none. It is
    /// meaningful in this process only.
    pub plugin_agent: u64,
}

/// The outcome of a run; an empty `err_message` means success.
#[derive(Clone, Debug)]
pub struct ExecProgramResult {
    pub json_result: String,
    pub yaml_result: String,
    pub log_message: String,
    pub err_message: String,
}

impl ExecProgramResult {
    pub open spec fn is_empty_result(&self) -> bool {
        &&& self.json_result@.len() == 0
        &&& self.yaml_result@.len() == 0
        &&& self.log_message@.len() == 0
        &&& self.err_message@.len() == 0
    }
}

impl Default for ExecProgramResult {
    fn default() -> (r: Self)
        ensures
            r.is_empty_result(),
    {
        ExecProgramResult {
            json_result: String::new(),
            yaml_result: String::new(),
            log_message: String::new(),
            err_message: String::new(),
        }
    }
}

/// Options of a [`KclLibRunner`].
#[derive(Debug)]
pub struct KclLibRunnerOptions {
    pub plugin_agent_ptr: u64,
}

impl Default for KclLibRunnerOptions {
    fn default() -> (r: Self)
        ensures
            r.plugin_agent_ptr == 0,
    {
        KclLibRunnerOptions { plugin_agent_ptr: 0 }
    }
}

/// Runs compiled libraries with a fixed plugin callback.
pub struct KclLibRunner {
    pub opts: KclLibRunnerOptions,
}

impl KclLibRunner {
    /// A runner with the given options, or with no plugin when none are given.
    pub fn new(opts: Option<KclLibRunnerOptions>) -> (r: Self)
        ensures
            r.opts.plugin_agent_ptr == (match opts {
                Some(o) => o.plugin_agent_ptr,
                None => 0,
            }),
    {
        let opts = match opts {
            Some(o) => o,
            None => KclLibRunnerOptions::default(),
        };
        KclLibRunner { opts }
    }
}

/// The path that the last entry of `pkgs` named `name` gives, if any.
pub open spec fn last_path(pkgs: Seq<CmdExternalPkgSpec>, name: Seq<char>) -> Option<Seq<char>>
    decreases pkgs.len(),
{
    if pkgs.len() == 0 {
        None
    } else if pkgs.last().pkg_name@ == name {
        Some(pkgs.last().pkg_path@)
    } else {
        last_path(pkgs.drop_last(), name)
    }
}

/// `m` maps each package name of `pkgs` once, to the path that its last
/// entry gives.
pub open spec fn is_package_map(m: Seq<(String, String)>, pkgs: Seq<CmdExternalPkgSpec>) -> bool {
    &&& forall|i: int, j: int|
        #![trigger m[i], m[j]]
        0 <= i < m.len() && 0 <= j < m.len() && i != j ==> m[i].0@ != m[j].0@
    &&& forall|i: int| 0 <= i < m.len() ==> last_path(pkgs, (#[trigger] m[i]).0@) == Some(m[i].1@)
    &&& forall|name: Seq<char>|
        #[trigger] last_path(pkgs, name) is Some ==> exists|i: int| 0 <= i < m.len() && (#[trigger] m[i]).0@ == name
}

/// What the library makes of a request for the program loader.
pub struct LoadProgramOptions {
    pub work_dir: String,
    pub vendor_dirs: Vec<String>,
    pub package_maps: Vec<(String, String)>,
    pub k_code_list: Vec<String>,
    pub cmd_args: Vec<CmdArgSpec>,
    pub cmd_overrides: Vec<OverrideSpec>,
    pub load_plugins: bool,
    pub recursive: bool,
}

pub open spec fn same_args(a: Seq<CmdArgSpec>, b: Seq<CmdArgSpec>) -> bool {
    &&& a.len() == b.len()
    &&& forall|i: int|
        0 <= i < a.len() ==> (#[trigger] a[i]).name@ == b[i].name@ && a[i].value@ == b[i].value@
}

pub open spec fn same_overrides(a: Seq<OverrideSpec>, b: Seq<OverrideSpec>) -> bool {
    &&& a.len() == b.len()
    &&& forall|i: int|
        0 <= i < a.len() ==> (#[trigger] a[i]).pkgpath@ == b[i].pkgpath@ && a[i].field_path@
            == b[i].field_path@ && a[i].field_value@ == b[i].field_value@ && a[i].action
            == b[i].action
}

fn copy_strings(v: &Vec<String>) -> (r: Vec<String>)
    ensures
        r@.len() == v@.len(),
        forall|i: int| 0 <= i < r@.len() ==> (#[trigger] r@[i])@ == v@[i]@,
{
    let mut r: Vec<String> = Vec::new();
    let mut i: usize = 0;
    while i < v.len()
        invariant
            i <= v@.len(),
            r@.len() == i,
            forall|q: int| 0 <= q < i ==> (#[trigger] r@[q])@ == v@[q]@,
        decreases v@.len() - i,
    {
        r.push(v[i].clone());
        i = i + 1;
    }
    r
}

fn copy_args(args: &Vec<CmdArgSpec>) -> (r: Vec<CmdArgSpec>)
    ensures
        same_args(r@, args@),
{
    let mut r: Vec<CmdArgSpec> = Vec::new();
    let mut i: usize = 0;
    while i < args.len()
        invariant
            i <= args@.len(),
            r@.len() == i,
            forall|q: int|
                0 <= q < i ==> (#[trigger] r@[q]).name@ == args@[q].name@ && r@[q].value@
                    == args@[q].value@,
        decreases args@.len() - i,
    {
        r.push(CmdArgSpec { name: args[i].name.clone(), value: args[i].value.clone() });
        i = i + 1;
    }
    r
}

fn copy_overrides(specs: &Vec<OverrideSpec>) -> (r: Vec<OverrideSpec>)
    ensures
        same_overrides(r@, specs@),
{
    let mut r: Vec<OverrideSpec> = Vec::new();
    let mut i: usize = 0;
    while i < specs.len()
        invariant
            i <= specs@.len(),
            r@.len() == i,
            forall|q: int|
                0 <= q < i ==> (#[trigger] r@[q]).pkgpath@ == specs@[q].pkgpath@ && r@[q].field_path@
                    == specs@[q].field_path@ && r@[q].field_value@ == specs@[q].field_value@
                    && r@[q].action == specs@[q].action,
        decreases specs@.len() - i,
    {
        r.push(
            OverrideSpec {
                pkgpath: specs[i].pkgpath.clone(),
                field_path: specs[i].field_path.clone(),
                field_value: specs[i].field_value.clone(),
                action: specs[i].action,
            },
        );
        i = i + 1;
    }
    r
}

/// The `kcl_cli_configs` block of a settings file; absent fields default.
pub struct CliConfigs {
    pub file: Option<Vec<String>>,
    pub files: Option<Vec<String>>,
    pub strict_range_check: Option<bool>,
    pub disable_none: Option<bool>,
    pub verbose: Option<u32>,
    pub debug: Option<bool>,
    pub sort_keys: Option<bool>,
    pub recursive: Option<bool>,
    pub include_schema_type_path: Option<bool>,
    /// The override specifications, as the settings loader parsed them.
    pub overrides: Option<Vec<OverrideSpec>>,
    pub path_selector: Option<Vec<String>>,
    pub package_maps: Option<Vec<(String, String)>>,
}

/// One entry of the `kcl_options` block of a settings file.
pub struct KeyValuePair {
    pub key: String,
    pub value: String,
}

/// A settings file: a CLI config block and an options block.
pub struct SettingsFile {
    pub kcl_cli_configs: Option<CliConfigs>,
    pub kcl_options: Option<Vec<KeyValuePair>>,
}

/// The scalar arguments of the native entry point.
#[derive(Clone, Copy, Debug, PartialEq, Eq, Structural)]
pub struct RunFlags {
    pub option_len: i32,
    pub strict_range_check: i32,
    pub disable_none: i32,
    /// Reserved in the entry point's interface; always off.
    pub disable_schema_check: i32,
    /// Reserved in the entry point's interface; always off.
    pub list_option_mode: i32,
    pub debug_mode: i32,
}

pub open spec fn bool_flag(b: bool) -> i32 {
    if b { 1 } else { 0 }
}

/// `s` can be passed as a C string: it holds no NUL character.
pub open spec fn c_compatible(s: Seq<char>) -> bool {
    forall|i: int| 0 <= i < s.len() ==> s[i] != '\0'
}

fn has_no_nul(s: &String) -> (r: bool)
    ensures
        r == c_compatible(s@),
{
    let t = s.as_str();
    let n = t.unicode_len();
    let mut i: usize = 0;
    while i < n
        invariant
            n == t@.len(),
            t@ == s@,
            i <= n,
            forall|k: int| 0 <= k < i ==> t@[k] != '\0',
        decreases n - i,
    {
        if t.get_char(i) == '\0' {
            return false;
        }
        i = i + 1;
    }
    true
}

/// Relies on `anyhow::Error::msg`: an error that displays `msg`.
#[verifier::external_body]
fn error_from_message(msg: String) -> anyhow::Error {
    anyhow::Error::msg(msg)
}

#[verifier::external_type_specification]
#[verifier::external_body]
pub struct ExAnyhowError(anyhow::Error);

pub trait MapErrorResult {
    /// Moves an execution error message into the `Err` side.
    fn map_err_to_result(self) -> Result<ExecProgramResult, anyhow::Error>;
}

impl MapErrorResult for ExecProgramResult {
    fn map_err_to_result(self) -> (r: Result<ExecProgramResult, anyhow::Error>)
        ensures
            r is Ok <==> self.err_message@.len() == 0,
            r matches Ok(v) ==> v == self,
    {
        if self.err_message.as_str().unicode_len() == 0 {
            Ok(self)
        } else {
            Err(error_from_message(self.err_message))
        }
    }
}

impl MapErrorResult for Result<ExecProgramResult, anyhow::Error> {
    fn map_err_to_result(self) -> (r: Result<ExecProgramResult, anyhow::Error>)
        ensures
            r is Ok <==> (self matches Ok(v) && v.err_message@.len() == 0),
            r matches Ok(v) ==> self == Ok::<ExecProgramResult, anyhow::Error>(v),
            self is Err ==> r == self,
    {
        match self {
            Ok(result) => result.map_err_to_result(),
            Err(err) => Err(err),
        }
    }
}

impl Default for ExecProgramArgs {
    fn default() -> (r: Self)
        ensures
            r.work_dir is None,
            r.k_filename_list@.len() == 0,
            r.external_pkgs@.len() == 0,
            r.k_code_list@.len() == 0,
            r.args@.len() == 0,
            r.overrides@.len() == 0,
            r.path_selector@.len() == 0,
            !r.disable_yaml_result && !r.print_override_ast && !r.strict_range_check,
            !r.disable_none && !r.sort_keys && !r.include_schema_type_path,
            !r.compile_only && !r.recursive,
            r.verbose == 0 && r.debug == 0 && r.plugin_agent == 0,
    {
        ExecProgramArgs {
            work_dir: None,
            k_filename_list: Vec::new(),
            external_pkgs: Vec::new(),
            k_code_list: Vec::new(),
            args: Vec::new(),
            overrides: Vec::new(),
            path_selector: Vec::new(),
            disable_yaml_result: false,
            print_override_ast: false,
            strict_range_check: false,
            disable_none: false,
            verbose: 0,
            debug: 0,
            sort_keys: false,
            include_schema_type_path: false,
            compile_only: false,
            recursive: false,
            plugin_agent: 0,
        }
    }
}

impl ExecProgramArgs {
    /// The package name to package path mapping: one pair per name, the
    /// last `-E` entry of a name winning, in order of first appearance.
    pub fn get_package_maps_from_external_pkg(&self) -> (r: Vec<(String, String)>)
        ensures
            is_package_map(r@, self.external_pkgs@),
    {
        let pkgs = &self.external_pkgs;
        let mut m: Vec<(String, String)> = Vec::new();
        let mut k: usize = 0;
        while k < pkgs.len()
            invariant
                k <= pkgs@.len(),
                is_package_map(m@, pkgs@.subrange(0, k as int)),
            decreases pkgs@.len() - k,
        {
            let ghost prev = pkgs@.subrange(0, k as int);
            let ghost next = pkgs@.subrange(0, k + 1);
            assert(next.drop_last() =~= prev);
            let name = &pkgs[k].pkg_name;
            let path = &pkgs[k].pkg_path;
            let mut j: usize = 0;
            let mut found: Option<usize> = None;
            while j < m.len() && found.is_none()
                invariant
                    j <= m@.len(),
                    is_package_map(m@, pkgs@.subrange(0, k as int)),
                    k < pkgs@.len(),
                    name == &pkgs@[k as int].pkg_name,
                    found matches Some(x) ==> x < m@.len() && m@[x as int].0@ == name@,
                    found is None ==> forall|q: int| 0 <= q < j ==> m@[q].0@ != name@,
                decreases m@.len() - j + (if found is None { 1int } else { 0int }),
            {
                if m[j].0 == *name {
                    found = Some(j);
                } else {
                    j = j + 1;
                }
            }
            let ghost before = m@;
            assert(is_package_map(before, prev));
            match found {
                Some(x) => {
                    m.set(x, (name.clone(), path.clone()));
                },
                None => {
                    m.push((name.clone(), path.clone()));
                },
            }
            proof {
                assert(next.drop_last() =~= prev);
                assert(next.last() == pkgs@[k as int]);
                assert(is_package_map(before, prev));
                assert forall|nm: Seq<char>| nm != name@ implies #[trigger] last_path(next, nm)
                    == last_path(prev, nm) by {}
                assert(last_path(next, name@) == Some(path@));
                assert forall|q: int| 0 <= q < m@.len() implies last_path(next, (#[trigger] m@[q]).0@)
                    == Some(m@[q].1@) by {
                    match found {
                        Some(x) => {
                            if q != x {
                                assert(m@[q] == before[q]);
                                assert(before[x as int].0@ == name@);
                                assert(before[q].0@ != name@);
                            } else {
                                assert(m@[q].0@ == name@ && m@[q].1@ == path@);
                            }
                        },
                        None => {
                            if q < before.len() {
                                assert(m@[q] == before[q]);
                                assert(before[q].0@ != name@);
                            } else {
                                assert(m@[q].0@ == name@ && m@[q].1@ == path@);
                            }
                        },
                    }
                }
                assert forall|nm: Seq<char>| #[trigger] last_path(next, nm) is Some implies exists|
                    q: int,
                | 0 <= q < m@.len() && (#[trigger] m@[q]).0@ == nm by {
                    if nm == name@ {
                        match found {
                            Some(x) => assert(m@[x as int].0@ == nm),
                            None => assert(m@[m@.len() - 1].0@ == nm),
                        }
                    } else {
                        assert(last_path(prev, nm) is Some);
                        let q = choose|q: int| 0 <= q < before.len() && (#[trigger] before[q]).0@ == nm;
                        assert(m@[q].0@ == nm);
                    }
                }
                assert forall|a: int, b: int|
                    #![trigger m@[a], m@[b]]
                    0 <= a < m@.len() && 0 <= b < m@.len() && a != b implies m@[a].0@ != m@[b].0@ by {
                    if found is None {
                        if a < before.len() && b < before.len() {
                            assert(m@[a] == before[a] && m@[b] == before[b]);
                        } else if a < before.len() {
                            assert(m@[a] == before[a]);
                            assert(before[a].0@ != name@);
                            assert(m@[b].0@ == name@);
                        } else {
                            assert(m@[b] == before[b]);
                            assert(before[b].0@ != name@);
                            assert(m@[a].0@ == name@);
                        }
                    } else {
                        let x = found->0 as int;
                        if a != x && b != x {
                            assert(m@[a] == before[a] && m@[b] == before[b]);
                        } else if a == x {
                            assert(m@[b] == before[b]);
                            assert(before[x].0@ == name@);
                            assert(m@[a].0@ == name@);
                        } else {
                            assert(m@[a] == before[a]);
                            assert(before[x].0@ == name@);
                            assert(m@[b].0@ == name@);
                        }
                    }
                }
            }
            k = k + 1;
        }
        assert(pkgs@.subrange(0, k as int) =~= pkgs@);
        m
    }

    /// Replaces the external packages by one entry per pair of `package_maps`,
    /// in its order.
    pub fn set_external_pkg_from_package_maps(&mut self, package_maps: Vec<(String, String)>)
        ensures
            final(self).external_pkgs@.len() == package_maps@.len(),
            forall|i: int|
                0 <= i < package_maps@.len() ==> (#[trigger] final(self).external_pkgs@[i]).pkg_name@
                    == package_maps@[i].0@ && final(self).external_pkgs@[i].pkg_path@
                    == package_maps@[i].1@,
            *final(self) == (ExecProgramArgs { external_pkgs: final(self).external_pkgs, ..*old(self) }),
    {
        let mut pkgs: Vec<CmdExternalPkgSpec> = Vec::new();
        let mut i: usize = 0;
        while i < package_maps.len()
            invariant
                i <= package_maps@.len(),
                pkgs@.len() == i,
                forall|q: int|
                    0 <= q < i ==> (#[trigger] pkgs@[q]).pkg_name@ == package_maps@[q].0@
                        && pkgs@[q].pkg_path@ == package_maps@[q].1@,
            decreases package_maps@.len() - i,
        {
            pkgs.push(
                CmdExternalPkgSpec {
                    pkg_name: package_maps[i].0.clone(),
                    pkg_path: package_maps[i].1.clone(),
                },
            );
            i = i + 1;
        }
        self.external_pkgs = pkgs;
    }

    /// The input file list.
    pub fn get_files(&self) -> (r: Vec<&str>)
        ensures
            r@.len() == self.k_filename_list@.len(),
            forall|i: int| 0 <= i < r@.len() ==> (#[trigger] r@[i])@ == self.k_filename_list@[i]@,
    {
        let mut r: Vec<&str> = Vec::new();
        let mut i: usize = 0;
        while i < self.k_filename_list.len()
            invariant
                i <= self.k_filename_list@.len(),
                r@.len() == i,
                forall|q: int| 0 <= q < i ==> (#[trigger] r@[q])@ == self.k_filename_list@[q]@,
            decreases self.k_filename_list@.len() - i,
        {
            r.push(self.k_filename_list[i].as_str());
            i = i + 1;
        }
        r
    }

    /// The loader options for this request; `vendor_home` is the package
    /// vendor directory of the environment.
    pub fn get_load_program_options(&self, vendor_home: String) -> (r: LoadProgramOptions)
        ensures
            r.work_dir@ == (match self.work_dir {
                Some(w) => w@,
                None => Seq::<char>::empty(),
            }),
            r.vendor_dirs@.len() == 1 && r.vendor_dirs@[0] == vendor_home,
            is_package_map(r.package_maps@, self.external_pkgs@),
            r.k_code_list@.len() == self.k_code_list@.len(),
            forall|i: int| 0 <= i < r.k_code_list@.len() ==> (#[trigger] r.k_code_list@[i])@ == self.k_code_list@[i]@,
            same_args(r.cmd_args@, self.args@),
            same_overrides(r.cmd_overrides@, self.overrides@),
            r.load_plugins == (self.plugin_agent > 0),
            r.recursive == self.recursive,
    {
        let work_dir = match &self.work_dir {
            Some(w) => w.clone(),
            None => String::new(),
        };
        let mut vendor_dirs: Vec<String> = Vec::new();
        vendor_dirs.push(vendor_home);
        LoadProgramOptions {
            work_dir,
            vendor_dirs,
            package_maps: self.get_package_maps_from_external_pkg(),
            k_code_list: copy_strings(&self.k_code_list),
            cmd_args: copy_args(&self.args),
            cmd_overrides: copy_overrides(&self.overrides),
            load_plugins: self.plugin_agent > 0,
            recursive: self.recursive,
        }
    }

    /// Whether every option name and value can cross the native boundary
    /// as a C string.
    pub fn options_are_c_compatible(&self) -> (r: bool)
        ensures
            r == forall|i: int|
                0 <= i < self.args@.len() ==> c_compatible((#[trigger] self.args@[i]).name@)
                    && c_compatible(self.args@[i].value@),
    {
        let mut i: usize = 0;
        while i < self.args.len()
            invariant
                i <= self.args@.len(),
                forall|q: int|
                    0 <= q < i ==> c_compatible((#[trigger] self.args@[q]).name@) && c_compatible(
                        self.args@[q].value@,
                    ),
            decreases self.args@.len() - i,
        {
            if !has_no_nul(&self.args[i].name) || !has_no_nul(&self.args[i].value) {
                return false;
            }
            i = i + 1;
        }
        true
    }

    /// The scalar arguments of the entry point, or `None` when there are
    /// more options than its length argument can count.
    pub fn run_flags(&self) -> (r: Option<RunFlags>)
        ensures
            r is Some <==> self.args@.len() <= i32::MAX,
            r matches Some(f) ==> f == (RunFlags {
                option_len: self.args@.len() as i32,
                strict_range_check: bool_flag(self.strict_range_check),
                disable_none: bool_flag(self.disable_none),
                disable_schema_check: 0,
                list_option_mode: 0,
                debug_mode: self.debug,
            }),
    {
        if self.args.len() > i32::MAX as usize {
            return None;
        }
        Some(
            RunFlags {
                option_len: self.args.len() as i32,
                strict_range_check: if self.strict_range_check { 1 } else { 0 },
                disable_none: if self.disable_none { 1 } else { 0 },
                disable_schema_check: 0,
                list_option_mode: 0,
                debug_mode: self.debug,
            },
        )
    }
}

pub open spec fn list_or_empty<T>(o: Option<Vec<T>>) -> Seq<T> {
    match o {
        Some(v) => v@,
        None => Seq::empty(),
    }
}

pub open spec fn flag_or_off(o: Option<bool>) -> bool {
    match o {
        Some(b) => b,
        None => false,
    }
}

fn take_list<T>(o: Option<Vec<T>>) -> (r: Vec<T>)
    ensures
        r@ == list_or_empty(o),
{
    match o {
        Some(v) => v,
        None => Vec::new(),
    }
}

fn take_flag(o: Option<bool>) -> (r: bool)
    ensures
        r == flag_or_off(o),
{
    match o {
        Some(b) => b,
        None => false,
    }
}

/// `r` is the request that `settings` describes, field by field, but for
/// its working directory; what the file leaves out takes its default.
pub open spec fn describes(settings: SettingsFile, r: ExecProgramArgs) -> bool {
    &&& (r.plugin_agent == 0)
    &&& (r.k_code_list@.len() == 0)
    &&& (settings.kcl_cli_configs is None ==> r.k_filename_list@.len() == 0
            && r.external_pkgs@.len() == 0 && r.overrides@.len() == 0
            && r.path_selector@.len() == 0 && !r.strict_range_check && !r.disable_none
            && r.verbose == 0 && r.debug == 0 && !r.sort_keys && !r.recursive
            && !r.include_schema_type_path)
    &&& (settings.kcl_cli_configs matches Some(c) ==> {
            &&& r.k_filename_list@ == if list_or_empty(c.files).len() > 0 {
                list_or_empty(c.files)
            } else {
                list_or_empty(c.file)
            }
            &&& r.strict_range_check == flag_or_off(c.strict_range_check)
            &&& r.disable_none == flag_or_off(c.disable_none)
            &&& r.verbose == (match c.verbose {
                Some(v) => #[verifier::truncate] (v as i32),
                None => 0i32,
            })
            &&& r.debug == bool_flag(flag_or_off(c.debug))
            &&& r.sort_keys == flag_or_off(c.sort_keys)
            &&& r.recursive == flag_or_off(c.recursive)
            &&& r.include_schema_type_path == flag_or_off(c.include_schema_type_path)
            &&& r.overrides@ == list_or_empty(c.overrides)
            &&& r.path_selector@ == list_or_empty(c.path_selector)
            &&& r.external_pkgs@.len() == list_or_empty(c.package_maps).len()
            &&& forall|i: int|
                0 <= i < r.external_pkgs@.len() ==> (#[trigger] r.external_pkgs@[i]).pkg_name@
                    == list_or_empty(c.package_maps)[i].0@ && r.external_pkgs@[i].pkg_path@
                    == list_or_empty(c.package_maps)[i].1@
        })
    &&& (r.args@.len() == list_or_empty(settings.kcl_options).len())
    &&& (forall|i: int|
            0 <= i < r.args@.len() ==> (#[trigger] r.args@[i]).name@ == list_or_empty(
                settings.kcl_options,
            )[i].key@ && r.args@[i].value@ == list_or_empty(settings.kcl_options)[i].value@)
    &&& (!r.disable_yaml_result && !r.print_override_ast && !r.compile_only)
}

impl ExecProgramArgs {
    /// The request that a settings file describes, field by field; what the
    /// file leaves out takes its default. `files` is read, or `file` where
    /// `files` gives none.
    pub fn from_settings(settings: SettingsFile) -> (r: ExecProgramArgs)
        ensures
            describes(settings, r),
            r.work_dir is None,
    {
        let mut args = ExecProgramArgs::default();
        let ghost cli = settings.kcl_cli_configs;
        let ghost opts = settings.kcl_options;
        match settings.kcl_cli_configs {
            Some(c) => {
                args.k_filename_list = take_list(c.files);
                if args.k_filename_list.len() == 0 {
                    args.k_filename_list = take_list(c.file);
                }
                args.strict_range_check = take_flag(c.strict_range_check);
                args.disable_none = take_flag(c.disable_none);
                args.verbose = match c.verbose {
                    Some(v) => #[verifier::truncate] (v as i32),
                    None => 0,
                };
                args.debug = if take_flag(c.debug) { 1 } else { 0 };
                args.sort_keys = take_flag(c.sort_keys);
                args.recursive = take_flag(c.recursive);
                args.include_schema_type_path = take_flag(c.include_schema_type_path);
                args.overrides = take_list(c.overrides);
                args.path_selector = take_list(c.path_selector);
                args.set_external_pkg_from_package_maps(take_list(c.package_maps));
            },
            None => {},
        }
        match settings.kcl_options {
            Some(options) => {
                let mut specs: Vec<CmdArgSpec> = Vec::new();
                let mut i: usize = 0;
                while i < options.len()
                    invariant
                        i <= options@.len(),
                        specs@.len() == i,
                        forall|q: int|
                            0 <= q < i ==> (#[trigger] specs@[q]).name@ == options@[q].key@
                                && specs@[q].value@ == options@[q].value@,
                    decreases options@.len() - i,
                {
                    specs.push(
                        CmdArgSpec { name: options[i].key.clone(), value: options[i].value.clone() },
                    );
                    i = i + 1;
                }
                args.args = specs;
            },
            None => {},
        }
        args
    }

    /// The request that a settings file at `path` describes: as
    /// [`ExecProgramArgs::from_settings`], run in the file's directory.
    pub fn from_settings_path(settings: SettingsFile, path: Option<String>) -> (r: ExecProgramArgs)
        ensures
            describes(settings, r),
            r.work_dir == path,
    {
        let mut args = ExecProgramArgs::from_settings(settings);
        args.work_dir = path;
        args
    }
}

} // verus!
