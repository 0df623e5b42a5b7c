//! Launch metadata: what the guest runs, with which environment and where.

use crate::string_map::{in_key_order, keys_distinct, lemma_map_of, map_of, StringMap};
use crate::text::{
    concat, concat3, copy_texts, decimal, decimal_text, is_digit, lemma_decimal_digits,
    lemma_decimal_injective, lemma_parse_of_decimal, lemma_split_at_first_of_join, owned,
    parsed_number, split_at_first, split_once, starts_with, text_pairs, texts,
};
use vstd::prelude::*;
use vstd::utf8::*;

verus! {

/// Guest platform that an image manifest must match.
#[derive(Debug, Clone, Copy, PartialEq, Eq, Structural)]
pub enum Platform {
    /// `linux/amd64`
    LinuxAmd64,
    /// `linux/arm64`
    LinuxArm64,
}

/// The platform that runs on a host of the given architecture.
pub open spec fn platform_of(arch: Seq<char>) -> Option<Platform> {
    if arch == "x86_64"@ {
        Some(Platform::LinuxAmd64)
    } else if arch == "aarch64"@ || arch == "arm64"@ {
        Some(Platform::LinuxArm64)
    } else {
        None
    }
}

impl Platform {
    /// OCI `architecture` component, as text.
    pub open spec fn arch_text(self) -> Seq<char> {
        match self {
            Platform::LinuxAmd64 => "amd64"@,
            Platform::LinuxArm64 => "arm64"@,
        }
    }

    /// The platform of a host whose architecture has the given name.
    /// `None` where the architecture is not supported.
    pub fn host(arch: &str) -> (r: Option<Platform>)
        ensures
            r == platform_of(arch@),
    {
        if crate::text::same_text(arch, "x86_64") {
            Some(Platform::LinuxAmd64)
        } else if crate::text::same_text(arch, "aarch64") || crate::text::same_text(arch, "arm64") {
            Some(Platform::LinuxArm64)
        } else {
            None
        }
    }

    /// OCI `os` component.
    pub fn os(self) -> (r: &'static str)
        ensures
            r@ == "linux"@,
    {
        "linux"
    }

    /// OCI `architecture` component.
    pub fn arch(self) -> (r: &'static str)
        ensures
            r@ == self.arch_text(),
    {
        match self {
            Platform::LinuxAmd64 => "amd64",
            Platform::LinuxArm64 => "arm64",
        }
    }

    /// Short string used in cache keys (`amd64`, `arm64`).
    pub fn cache_tag(self) -> (r: &'static str)
        ensures
            r@ == self.arch_text(),
    {
        self.arch()
    }

    /// The platform as `os/architecture`.
    pub fn display(self) -> (r: String)
        ensures
            r@ == "linux"@ + "/"@ + self.arch_text(),
    {
        concat3(self.os(), "/", self.arch())
    }
}

/// The parts of an OCI image config that decide a launch.
#[derive(Debug)]
pub struct ImageConfig {
    pub entrypoint: Vec<String>,
    pub cmd: Vec<String>,
    pub env: Vec<String>,
    pub working_dir: String,
    pub labels: StringMap,
    pub stop_signal: String,
}

impl Clone for ImageConfig {
    fn clone(&self) -> (r: Self)
        ensures
            r.entrypoint@ == self.entrypoint@,
            r.cmd@ == self.cmd@,
            r.env@ == self.env@,
            r.working_dir@ == self.working_dir@,
            r.labels@ == self.labels@,
            r.stop_signal@ == self.stop_signal@,
    {
        ImageConfig {
            entrypoint: copy_texts(&self.entrypoint),
            cmd: copy_texts(&self.cmd),
            env: copy_texts(&self.env),
            working_dir: self.working_dir.clone(),
            labels: self.labels.clone(),
            stop_signal: self.stop_signal.clone(),
        }
    }
}

impl Default for ImageConfig {
    fn default() -> (r: Self)
        ensures
            r.entrypoint@.len() == 0,
            r.cmd@.len() == 0,
            r.env@.len() == 0,
            r.working_dir@ == ""@,
            r.labels@ == Map::<Seq<char>, Seq<char>>::empty(),
            r.stop_signal@ == ""@,
    {
        ImageConfig {
            entrypoint: Vec::new(),
            cmd: Vec::new(),
            env: Vec::new(),
            working_dir: owned(""),
            labels: StringMap::new(),
            stop_signal: owned(""),
        }
    }
}

/// Why an image config does not describe a launch.
#[derive(Debug, PartialEq, Eq)]
pub enum BuildError {
    /// Entrypoint and Cmd are both empty.
    EmptyCommand,
    /// An environment entry of the image holds no `=`.
    MalformedEnv(String),
    /// The template environment has an entry with an empty key.
    EmptyTemplateEnvKey,
}

impl BuildError {
    /// The error as text.
    pub open spec fn text(self) -> Seq<char> {
        match self {
            BuildError::EmptyCommand =>
                "image config has no runnable command (Entrypoint and Cmd are both empty)"@,
            BuildError::MalformedEnv(entry) => "image env entry is not KEY=VALUE: "@ + entry@,
            BuildError::EmptyTemplateEnvKey => "template env entry has empty key"@,
        }
    }

    /// The error as text.
    pub fn message(&self) -> (r: String)
        ensures
            r@ == self.text(),
    {
        match self {
            BuildError::EmptyCommand => owned(
                "image config has no runnable command (Entrypoint and Cmd are both empty)",
            ),
            BuildError::MalformedEnv(entry) => concat(
                "image env entry is not KEY=VALUE: ",
                entry.as_str(),
            ),
            BuildError::EmptyTemplateEnvKey => owned("template env entry has empty key"),
        }
    }
}

/// Command, environment and working directory that the guest init hands to
/// the supervisor.
#[derive(Debug, PartialEq, Eq)]
pub struct LaunchMetadata {
    /// Exact argv boundaries (no shell split).
    pub argv: Vec<String>,
    /// Environment in key order.
    pub env: Vec<(String, String)>,
    /// Working directory inside the container root file system.
    pub workdir: String,
    /// Labels of the image config.
    pub labels: StringMap,
    /// Stop signal name of the image config (e.g. `SIGTERM`); empty: default.
    pub stop_signal: String,
}

impl Clone for LaunchMetadata {
    fn clone(&self) -> (r: Self)
        ensures
            r.same_as(*self),
    {
        LaunchMetadata {
            argv: copy_texts(&self.argv),
            env: crate::text::copy_text_pairs(&self.env),
            workdir: self.workdir.clone(),
            labels: self.labels.clone(),
            stop_signal: self.stop_signal.clone(),
        }
    }
}

// ---------------------------------------------------------------------
// What an image config and the overrides come to
// ---------------------------------------------------------------------
/// The first entry that holds no `=`.
pub open spec fn env_fault(entries: Seq<Seq<char>>) -> Option<Seq<char>>
    decreases entries.len(),
{
    if entries.len() == 0 {
        None
    } else if split_at_first(entries[0], '=') is None {
        Some(entries[0])
    } else {
        env_fault(entries.skip(1))
    }
}

/// The key and value of each `KEY=VALUE` entry.
pub open spec fn env_pairs(entries: Seq<Seq<char>>) -> Seq<(Seq<char>, Seq<char>)> {
    Seq::new(entries.len(), |i: int| split_at_first(entries[i], '=')->0)
}

/// The environment that the three sources come to: a key of `spec` has its
/// value there, else a key of `template` has its value there, else the last
/// entry of the image that sets it counts.
pub open spec fn merged_env(
    oci: Seq<Seq<char>>,
    template: Map<Seq<char>, Seq<char>>,
    spec_env: Map<Seq<char>, Seq<char>>,
) -> Map<Seq<char>, Seq<char>> {
    map_of(env_pairs(oci)).union_prefer_right(template).union_prefer_right(spec_env)
}

/// The working directory: that of the image where it is absolute.
pub open spec fn workdir_of(oci_workdir: Seq<char>) -> Seq<char> {
    if oci_workdir.len() > 0 && oci_workdir[0] == '/' {
        oci_workdir
    } else {
        "/sandbox"@
    }
}

/// The entrypoint followed by the command arguments; at least one of the two
/// must not be empty.
pub fn resolve_argv(entrypoint: &Vec<String>, cmd: &Vec<String>) -> (r: Result<
    Vec<String>,
    BuildError,
>)
    ensures
        match r {
            Ok(argv) => argv@ == entrypoint@ + cmd@ && argv@.len() > 0,
            Err(e) => e == BuildError::EmptyCommand && entrypoint@.len() + cmd@.len() == 0,
        },
{
    let mut argv: Vec<String> = copy_texts(entrypoint);
    let mut i: usize = 0;
    while i < cmd.len()
        invariant
            i <= cmd.len(),
            argv@ == entrypoint@ + cmd@.take(i as int),
        decreases cmd.len() - i,
    {
        argv.push(cmd[i].clone());
        assert(cmd@.take(i + 1) =~= cmd@.take(i as int).push(cmd@[i as int]));
        i = i + 1;
    }
    assert(cmd@.take(i as int) =~= cmd@);
    if argv.len() == 0 {
        return Err(BuildError::EmptyCommand);
    }
    Ok(argv)
}

/// The working directory of the image where it is absolute, else `/sandbox`.
pub fn resolve_workdir(oci_workdir: &str) -> (r: String)
    ensures
        r@ == workdir_of(oci_workdir@),
{
    proof {
        reveal_strlit("/");
        if "/"@.is_prefix_of(oci_workdir@) {
            assert(oci_workdir@.subrange(0, 1)[0] == oci_workdir@[0]);
        }
        if oci_workdir@.len() > 0 && oci_workdir@[0] == '/' {
            assert(oci_workdir@.subrange(0, 1) =~= "/"@);
        }
    }
    if starts_with(oci_workdir, "/") {
        owned(oci_workdir)
    } else {
        owned("/sandbox")
    }
}

/// One environment out of the image's entries, the template and the sandbox
/// spec, in key order. Later sources win.
pub fn merge_env(oci_env: &Vec<String>, template: &StringMap, spec_env: &StringMap) -> (r: Result<
    Vec<(String, String)>,
    BuildError,
>)
    ensures
        match r {
            Ok(env) => env_fault(texts(oci_env@)) is None && !template@.dom().contains(
                Seq::<char>::empty(),
            ) && in_key_order(text_pairs(env@)) && map_of(text_pairs(env@)) == merged_env(
                texts(oci_env@),
                template@,
                spec_env@,
            ),
            Err(BuildError::MalformedEnv(entry)) => env_fault(texts(oci_env@)) == Some(entry@),
            Err(BuildError::EmptyTemplateEnvKey) => env_fault(texts(oci_env@)) is None
                && template@.dom().contains(Seq::<char>::empty()),
            Err(BuildError::EmptyCommand) => false,
        },
{
    let ghost oci = texts(oci_env@);
    let mut merged: StringMap = StringMap::new();
    let mut i: usize = 0;
    assert(oci.skip(0) =~= oci);
    assert(env_pairs(oci).take(0) =~= Seq::<(Seq<char>, Seq<char>)>::empty());
    while i < oci_env.len()
        invariant
            i <= oci_env.len(),
            oci == texts(oci_env@),
            env_fault(oci) == env_fault(oci.skip(i as int)),
            merged@ == map_of(env_pairs(oci).take(i as int)),
        decreases oci_env.len() - i,
    {
        assert(oci.skip(i as int)[0] == oci[i as int]);
        match split_once(oci_env[i].as_str(), '=') {
            None => {
                return Err(BuildError::MalformedEnv(oci_env[i].clone()));
            },
            Some((key, value)) => {
                merged.insert(key, value);
            },
        }
        assert(oci.skip(i as int).skip(1) =~= oci.skip(i + 1));
        assert(env_pairs(oci).take(i + 1).drop_last() =~= env_pairs(oci).take(i as int));
        i = i + 1;
    }
    assert(env_pairs(oci).take(i as int) =~= env_pairs(oci));
    let ghost base = merged@;
    let entries = template.entries();
    let ghost tpl = template.pairs();
    proof {
        crate::string_map::lemma_in_key_order_distinct(tpl);
        lemma_map_of(tpl);
    }
    let mut j: usize = 0;
    assert(base.union_prefer_right(map_of(tpl.take(0))) =~= base);
    while j < entries.len()
        invariant
            j <= entries.len(),
            tpl == text_pairs(entries@),
            merged@ == base.union_prefer_right(map_of(tpl.take(j as int))),
            forall|k: int| 0 <= k < j ==> #[trigger] tpl[k].0 != Seq::<char>::empty(),
            forall|k: int|
                0 <= k < tpl.len() ==> template@.dom().contains(#[trigger] tpl[k].0),
            env_fault(texts(oci_env@)) is None,
        decreases entries.len() - j,
    {
        assert(tpl[j as int].0 == entries@[j as int].0@);
        assert(tpl.take(j + 1).drop_last() =~= tpl.take(j as int));
        if crate::text::chars_of(entries[j].0.as_str()).len() == 0 {
            assert(tpl[j as int].0 =~= Seq::<char>::empty());
            return Err(BuildError::EmptyTemplateEnvKey);
        }
        merged.insert(entries[j].0.clone(), entries[j].1.clone());
        assert(merged@ =~= base.union_prefer_right(map_of(tpl.take(j + 1))));
        j = j + 1;
    }
    assert(tpl.take(j as int) =~= tpl);
    let ghost middle = merged@;
    let more = spec_env.entries();
    let ghost spc = spec_env.pairs();
    let mut n: usize = 0;
    assert(middle.union_prefer_right(map_of(spc.take(0))) =~= middle);
    while n < more.len()
        invariant
            n <= more.len(),
            spc == text_pairs(more@),
            merged@ == middle.union_prefer_right(map_of(spc.take(n as int))),
        decreases more.len() - n,
    {
        assert(spc.take(n + 1).drop_last() =~= spc.take(n as int));
        merged.insert(more[n].0.clone(), more[n].1.clone());
        assert(merged@ =~= middle.union_prefer_right(map_of(spc.take(n + 1))));
        n = n + 1;
    }
    assert(spc.take(n as int) =~= spc);
    Ok(merged.into_entries())
}

/// Whether `built` is what an image config and the two override environments
/// come to as a launch.
pub open spec fn launch_of(
    config: ImageConfig,
    template: Map<Seq<char>, Seq<char>>,
    spec_env: Map<Seq<char>, Seq<char>>,
    built: Result<LaunchMetadata, BuildError>,
) -> bool {
    let argv = texts(config.entrypoint@) + texts(config.cmd@);
    let fault = env_fault(texts(config.env@));
    let empty_key = template.dom().contains(Seq::<char>::empty());
    match built {
        Ok(m) => {
            &&& argv.len() > 0
            &&& fault is None
            &&& !empty_key
            &&& texts(m.argv@) == argv
            &&& m.workdir@ == workdir_of(config.working_dir@)
            &&& in_key_order(text_pairs(m.env@))
            &&& map_of(text_pairs(m.env@)) == merged_env(texts(config.env@), template, spec_env)
            &&& m.labels@ == config.labels@
            &&& m.stop_signal@ == config.stop_signal@
        },
        Err(BuildError::EmptyCommand) => argv.len() == 0,
        Err(BuildError::MalformedEnv(entry)) => argv.len() > 0 && fault == Some(entry@),
        Err(BuildError::EmptyTemplateEnvKey) => argv.len() > 0 && fault is None && empty_key,
    }
}

// ---------------------------------------------------------------------
// Variables for the guest
// ---------------------------------------------------------------------
/// Name of the variable that holds the argument with the given index.
pub open spec fn argv_name(i: nat) -> Seq<char> {
    "OPENSHELL_OCI_ARGV_"@ + decimal(i)
}

/// Name of the variable that holds the environment entry with the given index.
pub open spec fn env_name(i: nat) -> Seq<char> {
    "OPENSHELL_OCI_ENV_"@ + decimal(i)
}

/// An environment entry as `KEY=VALUE`.
pub open spec fn env_entry(pair: (Seq<char>, Seq<char>)) -> Seq<char> {
    pair.0 + "="@ + pair.1
}

/// One variable for each argument.
pub open spec fn argv_vars(argv: Seq<Seq<char>>) -> Seq<(Seq<char>, Seq<char>)> {
    Seq::new(argv.len(), |i: int| (argv_name(i as nat), argv[i]))
}

/// One variable for each environment entry.
pub open spec fn env_vars(env: Seq<(Seq<char>, Seq<char>)>) -> Seq<(Seq<char>, Seq<char>)> {
    Seq::new(env.len(), |i: int| (env_name(i as nat), env_entry(env[i])))
}

/// The variables that carry a launch to the guest.
pub open spec fn guest_vars(
    argv: Seq<Seq<char>>,
    env: Seq<(Seq<char>, Seq<char>)>,
    workdir: Seq<char>,
) -> Seq<(Seq<char>, Seq<char>)> {
    seq![("OPENSHELL_OCI_ARGC"@, decimal(argv.len()))] + argv_vars(argv) + seq![
        ("OPENSHELL_OCI_ENV_COUNT"@, decimal(env.len())),
    ] + env_vars(env) + seq![("OPENSHELL_OCI_WORKDIR"@, workdir)]
}

impl LaunchMetadata {
    /// Whether two launches hold the same values.
    pub open spec fn same_as(self, other: LaunchMetadata) -> bool {
        &&& texts(self.argv@) == texts(other.argv@)
        &&& text_pairs(self.env@) == text_pairs(other.env@)
        &&& self.workdir@ == other.workdir@
        &&& self.labels@ == other.labels@
        &&& self.stop_signal@ == other.stop_signal@
    }

    /// Normalizes an image config and the caller's overrides into a launch.
    ///
    /// Environment: image < template < sandbox spec. Argv: entrypoint, then
    /// command. Working directory: that of the image where it is absolute,
    /// else `/sandbox`.
    pub fn build(
        image_config: ImageConfig,
        template_env: &StringMap,
        spec_env: &StringMap,
    ) -> (r: Result<LaunchMetadata, BuildError>)
        ensures
            launch_of(image_config, template_env@, spec_env@, r),
    {
        let argv: Vec<String> = match resolve_argv(&image_config.entrypoint, &image_config.cmd) {
            Ok(argv) => argv,
            Err(e) => {
                return Err(e);
            },
        };
        assert(texts(argv@) =~= texts(image_config.entrypoint@) + texts(image_config.cmd@));
        let workdir: String = resolve_workdir(image_config.working_dir.as_str());
        let env: Vec<(String, String)> = match merge_env(&image_config.env, template_env, spec_env) {
            Ok(env) => env,
            Err(e) => {
                return Err(e);
            },
        };
        Ok(
            LaunchMetadata {
                argv,
                env,
                workdir,
                labels: image_config.labels,
                stop_signal: image_config.stop_signal,
            },
        )
    }

    /// The variables that the guest init reads.
    ///
    /// - `OPENSHELL_OCI_ARGC=<n>`, `OPENSHELL_OCI_ARGV_<i>=<arg>` for each i in 0..n.
    /// - `OPENSHELL_OCI_ENV_COUNT=<n>`, `OPENSHELL_OCI_ENV_<i>=<key>=<value>` for each i.
    /// - `OPENSHELL_OCI_WORKDIR=<path>`.
    pub fn to_guest_env_vars(&self) -> (r: Vec<(String, String)>)
        ensures
            text_pairs(r@) == guest_vars(texts(self.argv@), text_pairs(self.env@), self.workdir@),
    {
        let ghost argv = texts(self.argv@);
        let ghost env = text_pairs(self.env@);
        let mut out: Vec<(String, String)> = Vec::new();
        out.push((owned("OPENSHELL_OCI_ARGC"), decimal_text(self.argv.len() as u64)));
        let ghost head = text_pairs(out@);
        assert(head =~= seq![("OPENSHELL_OCI_ARGC"@, decimal(argv.len()))]);
        let mut i: usize = 0;
        assert(head + argv_vars(argv).take(0) =~= head);
        while i < self.argv.len()
            invariant
                i <= self.argv.len(),
                argv == texts(self.argv@),
                text_pairs(out@) == head + argv_vars(argv).take(i as int),
            decreases self.argv.len() - i,
        {
            let ghost before = out@;
            let name: String = concat("OPENSHELL_OCI_ARGV_", decimal_text(i as u64).as_str());
            out.push((name, self.argv[i].clone()));
            assert(text_pairs(out@) =~= text_pairs(before).push(argv_vars(argv)[i as int]));
            assert(argv_vars(argv).take(i + 1) =~= argv_vars(argv).take(i as int).push(
                argv_vars(argv)[i as int],
            ));
            assert(text_pairs(out@) =~= head + argv_vars(argv).take(i + 1));
            i = i + 1;
        }
        assert(argv_vars(argv).take(i as int) =~= argv_vars(argv));
        let ghost before = out@;
        out.push((owned("OPENSHELL_OCI_ENV_COUNT"), decimal_text(self.env.len() as u64)));
        let ghost middle = text_pairs(out@);
        assert(middle =~= text_pairs(before).push(
            ("OPENSHELL_OCI_ENV_COUNT"@, decimal(env.len())),
        ));
        assert(middle =~= head + argv_vars(argv) + seq![
            ("OPENSHELL_OCI_ENV_COUNT"@, decimal(env.len())),
        ]);
        let mut j: usize = 0;
        assert(middle + env_vars(env).take(0) =~= middle);
        while j < self.env.len()
            invariant
                j <= self.env.len(),
                env == text_pairs(self.env@),
                text_pairs(out@) == middle + env_vars(env).take(j as int),
            decreases self.env.len() - j,
        {
            let ghost before = out@;
            let name: String = concat("OPENSHELL_OCI_ENV_", decimal_text(j as u64).as_str());
            let entry: String = concat3(self.env[j].0.as_str(), "=", self.env[j].1.as_str());
            out.push((name, entry));
            assert(text_pairs(out@) =~= text_pairs(before).push(env_vars(env)[j as int]));
            assert(env_vars(env).take(j + 1) =~= env_vars(env).take(j as int).push(
                env_vars(env)[j as int],
            ));
            assert(text_pairs(out@) =~= middle + env_vars(env).take(j + 1));
            j = j + 1;
        }
        assert(env_vars(env).take(j as int) =~= env_vars(env));
        let ghost before = out@;
        out.push((owned("OPENSHELL_OCI_WORKDIR"), self.workdir.clone()));
        assert(text_pairs(out@) =~= text_pairs(before).push(
            ("OPENSHELL_OCI_WORKDIR"@, self.workdir@),
        ));
        assert(text_pairs(out@) =~= guest_vars(argv, env, self.workdir@));
        out
    }
}

// ---------------------------------------------------------------------
// Laws
// ---------------------------------------------------------------------
/// Precedence: a key has the value of the sandbox spec where the spec sets
/// it, else that of the template, else that of the image; and no other key is
/// set.
pub proof fn law_env_precedence(
    oci: Seq<Seq<char>>,
    template: Map<Seq<char>, Seq<char>>,
    spec_env: Map<Seq<char>, Seq<char>>,
    key: Seq<char>,
)
    ensures
        spec_env.dom().contains(key) ==> merged_env(oci, template, spec_env).dom().contains(key)
            && merged_env(oci, template, spec_env)[key] == spec_env[key],
        !spec_env.dom().contains(key) && template.dom().contains(key) ==> merged_env(
            oci,
            template,
            spec_env,
        ).dom().contains(key) && merged_env(oci, template, spec_env)[key] == template[key],
        !spec_env.dom().contains(key) && !template.dom().contains(key) ==> (merged_env(
            oci,
            template,
            spec_env,
        ).dom().contains(key) <==> map_of(env_pairs(oci)).dom().contains(key)),
        !spec_env.dom().contains(key) && !template.dom().contains(key) && map_of(
            env_pairs(oci),
        ).dom().contains(key) ==> merged_env(oci, template, spec_env)[key] == map_of(
            env_pairs(oci),
        )[key],
{
}

proof fn lemma_guest_names()
    ensures
        forall|i: nat, j: nat| #[trigger] argv_name(i) == #[trigger] argv_name(j) ==> i == j,
        forall|i: nat, j: nat| #[trigger] env_name(i) == #[trigger] env_name(j) ==> i == j,
        forall|i: nat, j: nat| #[trigger] argv_name(i) != #[trigger] env_name(j),
        forall|i: nat| #[trigger] argv_name(i) != "OPENSHELL_OCI_ARGC"@,
        forall|i: nat| #[trigger] argv_name(i) != "OPENSHELL_OCI_ENV_COUNT"@,
        forall|i: nat| #[trigger] argv_name(i) != "OPENSHELL_OCI_WORKDIR"@,
        forall|i: nat| #[trigger] env_name(i) != "OPENSHELL_OCI_ARGC"@,
        forall|i: nat| #[trigger] env_name(i) != "OPENSHELL_OCI_ENV_COUNT"@,
        forall|i: nat| #[trigger] env_name(i) != "OPENSHELL_OCI_WORKDIR"@,
        "OPENSHELL_OCI_ARGC"@ != "OPENSHELL_OCI_ENV_COUNT"@,
        "OPENSHELL_OCI_ARGC"@ != "OPENSHELL_OCI_WORKDIR"@,
        "OPENSHELL_OCI_ENV_COUNT"@ != "OPENSHELL_OCI_WORKDIR"@,
{
    reveal_strlit("OPENSHELL_OCI_ARGV_");
    reveal_strlit("OPENSHELL_OCI_ENV_");
    reveal_strlit("OPENSHELL_OCI_ARGC");
    reveal_strlit("OPENSHELL_OCI_ENV_COUNT");
    reveal_strlit("OPENSHELL_OCI_WORKDIR");
    assert forall|i: nat, j: nat| #[trigger] argv_name(i) == #[trigger] argv_name(j) implies i
        == j by {
        assert(argv_name(i).skip(19) =~= decimal(i));
        assert(argv_name(j).skip(19) =~= decimal(j));
        lemma_decimal_injective(i, j);
    }
    assert forall|i: nat, j: nat| #[trigger] env_name(i) == #[trigger] env_name(j) implies i
        == j by {
        assert(env_name(i).skip(18) =~= decimal(i));
        assert(env_name(j).skip(18) =~= decimal(j));
        lemma_decimal_injective(i, j);
    }
    assert forall|i: nat, j: nat| #[trigger] argv_name(i) != #[trigger] env_name(j) by {
        assert(argv_name(i)[14] == 'A');
        assert(env_name(j)[14] == 'E');
    }
    assert forall|i: nat| #[trigger] argv_name(i) != "OPENSHELL_OCI_ARGC"@ by {
        assert(argv_name(i)[17] == 'V');
    }
    assert forall|i: nat| #[trigger] argv_name(i) != "OPENSHELL_OCI_ENV_COUNT"@ by {
        assert(argv_name(i)[14] == 'A');
    }
    assert forall|i: nat| #[trigger] argv_name(i) != "OPENSHELL_OCI_WORKDIR"@ by {
        assert(argv_name(i)[14] == 'A');
    }
    assert forall|i: nat| #[trigger] env_name(i) != "OPENSHELL_OCI_ARGC"@ by {
        assert(env_name(i)[14] == 'E');
    }
    assert forall|i: nat| #[trigger] env_name(i) != "OPENSHELL_OCI_ENV_COUNT"@ by {
        lemma_decimal_digits(i);
        assert(env_name(i)[18] == decimal(i)[0]);
        assert(is_digit(decimal(i)[0]));
    }
    assert forall|i: nat| #[trigger] env_name(i) != "OPENSHELL_OCI_WORKDIR"@ by {
        assert(env_name(i)[14] == 'E');
    }
    assert("OPENSHELL_OCI_ARGC"@[14] == 'A');
    assert("OPENSHELL_OCI_ENV_COUNT"@[14] == 'E');
    assert("OPENSHELL_OCI_WORKDIR"@[14] == 'W');
}

/// No variable is set twice: the guest sees all of them, whatever the order
/// in which they reach its environment.
pub proof fn law_guest_vars_distinct(
    argv: Seq<Seq<char>>,
    env: Seq<(Seq<char>, Seq<char>)>,
    workdir: Seq<char>,
)
    ensures
        keys_distinct(guest_vars(argv, env, workdir)),
{
    lemma_guest_names();
    let v = guest_vars(argv, env, workdir);
    let a = argv.len() as int;
    let e = env.len() as int;
    assert(v.len() == a + e + 3);
    assert(v[0].0 == "OPENSHELL_OCI_ARGC"@);
    assert forall|i: int| 1 <= i < a + 1 implies #[trigger] v[i].0 == argv_name((i - 1) as nat) by {
    }
    assert(v[a + 1].0 == "OPENSHELL_OCI_ENV_COUNT"@);
    assert forall|i: int| a + 2 <= i < a + e + 2 implies #[trigger] v[i].0 == env_name(
        (i - a - 2) as nat,
    ) by {
    }
    assert(v[a + e + 2].0 == "OPENSHELL_OCI_WORKDIR"@);
    assert forall|i: int, j: int| 0 <= i < j < v.len() implies #[trigger] v[i].0
        != #[trigger] v[j].0 by {
    }
}

/// The guest gets back what was sent: from the variables, looked up by name,
/// the argument count parses to the number of arguments and every argument is
/// found whole, whatever characters it holds; the same for the environment,
/// whose entries split at their first `=` into key and value where the key
/// holds none.
pub proof fn law_guest_recovers_launch(
    argv: Seq<Seq<char>>,
    env: Seq<(Seq<char>, Seq<char>)>,
    workdir: Seq<char>,
)
    ensures
        ({
            let seen = map_of(guest_vars(argv, env, workdir));
            &&& seen.dom().contains("OPENSHELL_OCI_ARGC"@)
            &&& parsed_number(seen["OPENSHELL_OCI_ARGC"@]) == Some(argv.len())
            &&& forall|i: nat|
                i < argv.len() ==> seen.dom().contains(#[trigger] argv_name(i))
                    && seen[argv_name(i)] == argv[i as int]
            &&& seen.dom().contains("OPENSHELL_OCI_ENV_COUNT"@)
            &&& parsed_number(seen["OPENSHELL_OCI_ENV_COUNT"@]) == Some(env.len())
            &&& forall|i: nat|
                i < env.len() ==> seen.dom().contains(#[trigger] env_name(i)) && (
                !env[i as int].0.contains('=') ==> split_at_first(seen[env_name(i)], '=') == Some(
                    env[i as int],
                ))
            &&& seen.dom().contains("OPENSHELL_OCI_WORKDIR"@)
            &&& seen["OPENSHELL_OCI_WORKDIR"@] == workdir
        }),
{
    law_guest_vars_distinct(argv, env, workdir);
    let v = guest_vars(argv, env, workdir);
    let seen = map_of(v);
    lemma_map_of(v);
    let a = argv.len() as int;
    let e = env.len() as int;
    assert(v[0] == ("OPENSHELL_OCI_ARGC"@, decimal(argv.len())));
    assert(seen.dom().contains(v[0].0));
    lemma_parse_of_decimal(argv.len());
    assert forall|i: nat| i < argv.len() implies seen.dom().contains(#[trigger] argv_name(i))
        && seen[argv_name(i)] == argv[i as int] by {
        assert(v[i as int + 1] == (argv_name(i), argv[i as int]));
        assert(seen.dom().contains(v[i as int + 1].0));
    }
    assert(v[a + 1] == ("OPENSHELL_OCI_ENV_COUNT"@, decimal(env.len())));
    assert(seen.dom().contains(v[a + 1].0));
    lemma_parse_of_decimal(env.len());
    assert forall|i: nat| i < env.len() implies seen.dom().contains(#[trigger] env_name(i)) && (
    !env[i as int].0.contains('=') ==> split_at_first(seen[env_name(i)], '=') == Some(
        env[i as int],
    )) by {
        assert(v[a + 2 + i as int] == (env_name(i), env_entry(env[i as int])));
        assert(seen.dom().contains(v[a + 2 + i as int].0));
        if !env[i as int].0.contains('=') {
            reveal_strlit("=");
            let pair = env[i as int];
            assert(env_entry(pair) =~= pair.0.push('=') + pair.1);
            lemma_split_at_first_of_join(pair.0, '=', pair.1);
        }
    }
    assert(v[a + e + 2] == ("OPENSHELL_OCI_WORKDIR"@, workdir));
    assert(seen.dom().contains(v[a + e + 2].0));
}

/// Whether the entry with number `i` is the last that sets `key` to `value`: it
/// is the key, `=` and the value, the key holds no `=`, and no later entry
/// begins with the key and `=`.
pub open spec fn last_set(
    entries: Seq<Seq<char>>,
    i: int,
    key: Seq<char>,
    value: Seq<char>,
) -> bool {
    &&& 0 <= i < entries.len()
    &&& !key.contains('=')
    &&& entries[i] == key + seq!['='] + value
    &&& forall|j: int|
        i < j < entries.len() ==> !(key + seq!['=']).is_prefix_of(#[trigger] entries[j])
}

/// An entry of an image comes through whole: its key and its value, put
/// together with the `=` between them, are the entry again, and the key holds
/// no `=`; so a value keeps every `=` of its own. Entries without `=` are
/// refused, the first of them is named.
pub proof fn law_env_entries_whole(entries: Seq<Seq<char>>)
    ensures
        env_fault(entries) is None <==> forall|i: int|
            0 <= i < entries.len() ==> (#[trigger] entries[i]).contains('='),
        env_fault(entries) matches Some(entry) ==> exists|k: int|
            0 <= k < entries.len() && entry == #[trigger] entries[k] && !entry.contains('=')
                && forall|i: int| 0 <= i < k ==> (#[trigger] entries[i]).contains('='),
        env_pairs(entries).len() == entries.len(),
        forall|i: int|
            0 <= i < entries.len() && (#[trigger] entries[i]).contains('=') ==> {
                let pair = env_pairs(entries)[i];
                pair.0 + seq!['='] + pair.1 == entries[i] && !pair.0.contains('=')
            },
    decreases entries.len(),
{
    assert forall|i: int| 0 <= i < entries.len() && (#[trigger] entries[i]).contains('=') implies ({
        let pair = env_pairs(entries)[i];
        pair.0 + seq!['='] + pair.1 == entries[i] && !pair.0.contains('=')
    }) by {
        lemma_split_whole(entries[i]);
    }
    if entries.len() > 0 {
        lemma_split_whole(entries[0]);
        let rest = entries.skip(1);
        law_env_entries_whole(rest);
        if entries[0].contains('=') {
            if env_fault(rest) is None {
                assert forall|i: int| 0 <= i < entries.len() implies (#[trigger] entries[i]).contains(
                    '=',
                ) by {
                    if i > 0 {
                        assert(rest[i - 1] == entries[i]);
                    }
                }
            } else {
                let entry = env_fault(rest)->0;
                let k = choose|k: int|
                    0 <= k < rest.len() && entry == #[trigger] rest[k] && !entry.contains('=')
                        && forall|i: int| 0 <= i < k ==> (#[trigger] rest[i]).contains('=');
                assert(entries[k + 1] == entry);
                assert forall|i: int| 0 <= i < k + 1 implies (#[trigger] entries[i]).contains(
                    '=',
                ) by {
                    if i > 0 {
                        assert(rest[i - 1] == entries[i]);
                    }
                }
            }
        } else {
            assert(entries[0] == entries[0]);
        }
    }
}

proof fn lemma_split_whole(s: Seq<char>)
    ensures
        split_at_first(s, '=') is Some <==> s.contains('='),
        split_at_first(s, '=') matches Some((key, value)) ==> key + seq!['='] + value == s
            && !key.contains('='),
{
    crate::text::lemma_first_index(s, '=');
    let i = crate::text::first_index(s, '=');
    if i < s.len() {
        assert(s[i] == '=');
        assert(s.take(i) + seq!['='] + s.skip(i + 1) =~= s);
        assert(!s.take(i).contains('=')) by {
            if s.take(i).contains('=') {
                let j = choose|j: int| 0 <= j < s.take(i).len() && s.take(i)[j] == '=';
                assert(s[j] == '=');
            }
        }
    } else if s.contains('=') {
        let j = choose|j: int| 0 <= j < s.len() && s[j] == '=';
        assert(s[j] == '=');
    }
}

proof fn lemma_last_pair_counts(
    pairs: Seq<(Seq<char>, Seq<char>)>,
    i: int,
)
    requires
        0 <= i < pairs.len(),
        forall|j: int| i < j < pairs.len() ==> (#[trigger] pairs[j]).0 != pairs[i].0,
    ensures
        map_of(pairs).dom().contains(pairs[i].0),
        map_of(pairs)[pairs[i].0] == pairs[i].1,
    decreases pairs.len(),
{
    let front = pairs.drop_last();
    if i < pairs.len() - 1 {
        assert(front[i] == pairs[i]);
        assert forall|j: int| i < j < front.len() implies (#[trigger] front[j]).0 != front[i].0 by {
            assert(front[j] == pairs[j]);
        }
        lemma_last_pair_counts(front, i);
        assert(pairs[pairs.len() - 1].0 != pairs[i].0);
    }
}

/// The image's own environment reaches the launch: a key that neither the
/// template nor the sandbox spec sets has the value of the last entry that sets
/// it, all of what follows the first `=`.
pub proof fn law_image_env_kept(
    oci: Seq<Seq<char>>,
    template: Map<Seq<char>, Seq<char>>,
    spec_env: Map<Seq<char>, Seq<char>>,
    i: int,
    key: Seq<char>,
    value: Seq<char>,
)
    requires
        env_fault(oci) is None,
        last_set(oci, i, key, value),
        !template.dom().contains(key),
        !spec_env.dom().contains(key),
    ensures
        merged_env(oci, template, spec_env).dom().contains(key),
        merged_env(oci, template, spec_env)[key] == value,
{
    law_env_entries_whole(oci);
    let pairs = env_pairs(oci);
    assert forall|j: int| i <= j < pairs.len() implies ((#[trigger] pairs[j]).0 == key ==> j == i
        && pairs[j].1 == value) && (j == i ==> pairs[j].0 == key) by {
        assert(oci[j].contains('='));
        let pair = pairs[j];
        assert(pair.0 + seq!['='] + pair.1 == oci[j]);
        if pair.0 == key {
            assert((key + seq!['=']) =~= oci[j].subrange(0, key.len() + 1int));
            assert(oci[j].skip(key.len() + 1int) =~= pair.1);
            if j == i {
                assert(oci[j].skip(key.len() + 1int) =~= value);
            }
        }
        if j == i {
            assert(key.push('=') + value =~= oci[i]);
            lemma_split_at_first_of_join(key, '=', value);
        }
    }
    assert(pairs[i].0 == key);
    lemma_last_pair_counts(pairs, i);
}

/// The environment of a launch holds nothing that no source set.
pub proof fn law_env_from_sources(
    oci: Seq<Seq<char>>,
    template: Map<Seq<char>, Seq<char>>,
    spec_env: Map<Seq<char>, Seq<char>>,
    key: Seq<char>,
)
    requires
        env_fault(oci) is None,
        merged_env(oci, template, spec_env).dom().contains(key),
    ensures
        template.dom().contains(key) || spec_env.dom().contains(key) || exists|i: int|
            0 <= i < oci.len() && (key + seq!['=']).is_prefix_of(#[trigger] oci[i]),
{
    law_env_entries_whole(oci);
    if !template.dom().contains(key) && !spec_env.dom().contains(key) {
        let pairs = env_pairs(oci);
        lemma_key_of_pair(pairs, key);
        let i = choose|i: int| 0 <= i < pairs.len() && (#[trigger] pairs[i]).0 == key;
        assert(oci[i].contains('='));
        assert(pairs[i].0 + seq!['='] + pairs[i].1 == oci[i]);
        assert((key + seq!['=']) =~= oci[i].subrange(0, key.len() + 1int));
    }
}

proof fn lemma_key_of_pair(pairs: Seq<(Seq<char>, Seq<char>)>, key: Seq<char>)
    requires
        map_of(pairs).dom().contains(key),
    ensures
        exists|i: int| 0 <= i < pairs.len() && (#[trigger] pairs[i]).0 == key,
    decreases pairs.len(),
{
    if pairs.len() > 0 {
        let front = pairs.drop_last();
        if pairs.last().0 == key {
            assert(pairs[pairs.len() - 1].0 == key);
        } else {
            lemma_key_of_pair(front, key);
            let i = choose|i: int| 0 <= i < front.len() && (#[trigger] front[i]).0 == key;
            assert(pairs[i].0 == key);
        }
    }
}

/// A launch says what the image and the caller said: the entrypoint and then the
/// command, each argument whole; every variable of the sandbox spec; every
/// variable of the template that the spec does not set; the image's working
/// directory where it begins with `/`, else `/sandbox`; and the image's labels
/// and stop signal. No key is there twice.
pub proof fn law_launch_says_all(
    config: ImageConfig,
    template: Map<Seq<char>, Seq<char>>,
    spec_env: Map<Seq<char>, Seq<char>>,
    built: LaunchMetadata,
)
    requires
        launch_of(config, template, spec_env, Ok(built)),
    ensures
        built.argv@.len() == config.entrypoint@.len() + config.cmd@.len(),
        built.argv@.len() > 0,
        forall|i: int|
            0 <= i < config.entrypoint@.len() ==> (#[trigger] built.argv@[i])@
                == config.entrypoint@[i]@,
        forall|i: int|
            0 <= i < config.cmd@.len() ==> (#[trigger] config.cmd@[i])@ == built.argv@[i
                + config.entrypoint@.len()]@,
        forall|key: Seq<char>| #[trigger]
            spec_env.dom().contains(key) ==> has_pair(text_pairs(built.env@), key, spec_env[key]),
        forall|key: Seq<char>| #[trigger]
            template.dom().contains(key) && !spec_env.dom().contains(key) ==> has_pair(
                text_pairs(built.env@),
                key,
                template[key],
            ),
        forall|i: int, key: Seq<char>, value: Seq<char>| #[trigger]
            last_set(texts(config.env@), i, key, value) && !template.dom().contains(key)
                && !spec_env.dom().contains(key) ==> has_pair(text_pairs(built.env@), key, value),
        forall|i: int|
            0 <= i < built.env@.len() ==> {
                let key = (#[trigger] text_pairs(built.env@)[i]).0;
                template.dom().contains(key) || spec_env.dom().contains(key) || exists|j: int|
                    0 <= j < config.env@.len() && (key + seq!['=']).is_prefix_of(
                        #[trigger] texts(config.env@)[j],
                    )
            },
        keys_distinct(text_pairs(built.env@)),
        forall|i: int, j: int|
            0 <= i < j < built.env@.len() ==> crate::string_map::bytes_before(
                encode_utf8((#[trigger] text_pairs(built.env@)[i]).0),
                encode_utf8((#[trigger] text_pairs(built.env@)[j]).0),
            ),
        config.working_dir@.len() > 0 && config.working_dir@[0] == '/' ==> built.workdir@
            == config.working_dir@,
        !(config.working_dir@.len() > 0 && config.working_dir@[0] == '/') ==> built.workdir@
            == "/sandbox"@,
        built.labels@ == config.labels@,
        built.stop_signal@ == config.stop_signal@,
{
    let argv = texts(config.entrypoint@) + texts(config.cmd@);
    let env = text_pairs(built.env@);
    let oci = texts(config.env@);
    assert(texts(built.argv@).len() == built.argv@.len());
    assert forall|i: int| 0 <= i < config.entrypoint@.len() implies (#[trigger] built.argv@[i])@
        == config.entrypoint@[i]@ by {
        assert(texts(built.argv@)[i] == argv[i]);
    }
    assert forall|i: int| 0 <= i < config.cmd@.len() implies (#[trigger] config.cmd@[i])@
        == built.argv@[i + config.entrypoint@.len()]@ by {
        assert(texts(built.argv@)[i + config.entrypoint@.len()] == argv[i
            + config.entrypoint@.len()]);
    }
    crate::string_map::lemma_in_key_order_distinct(env);
    lemma_map_of(env);
    assert forall|key: Seq<char>| map_of(env).dom().contains(key) implies #[trigger] has_pair(
        env,
        key,
        map_of(env)[key],
    ) by {
        lemma_key_of_pair(env, key);
        let i = choose|i: int| 0 <= i < env.len() && (#[trigger] env[i]).0 == key;
        assert(env[i] == (key, map_of(env)[key]));
    }
    assert forall|key: Seq<char>| #[trigger] spec_env.dom().contains(key) implies has_pair(
        env,
        key,
        spec_env[key],
    ) by {
        law_env_precedence(oci, template, spec_env, key);
        assert(has_pair(env, key, map_of(env)[key]));
    }
    assert forall|key: Seq<char>| #[trigger]
        template.dom().contains(key) && !spec_env.dom().contains(key) implies has_pair(
        env,
        key,
        template[key],
    ) by {
        law_env_precedence(oci, template, spec_env, key);
        assert(has_pair(env, key, map_of(env)[key]));
    }
    assert forall|i: int, key: Seq<char>, value: Seq<char>| #[trigger]
        last_set(oci, i, key, value) && !template.dom().contains(key) && !spec_env.dom().contains(
            key,
        ) implies has_pair(env, key, value) by {
        law_image_env_kept(oci, template, spec_env, i, key, value);
        assert(has_pair(env, key, map_of(env)[key]));
    }
    assert forall|i: int| 0 <= i < env.len() implies ({
        let key = (#[trigger] env[i]).0;
        template.dom().contains(key) || spec_env.dom().contains(key) || exists|j: int|
            0 <= j < config.env@.len() && (key + seq!['=']).is_prefix_of(#[trigger] oci[j])
    }) by {
        assert(map_of(env).dom().contains(env[i].0));
        law_env_from_sources(oci, template, spec_env, env[i].0);
    }
}

/// Whether a list holds a key with a value.
pub open spec fn has_pair(
    pairs: Seq<(Seq<char>, Seq<char>)>,
    key: Seq<char>,
    value: Seq<char>,
) -> bool {
    exists|i: int| 0 <= i < pairs.len() && #[trigger] pairs[i] == (key, value)
}

/// A launch is refused for three reasons, and each is named: there is no
/// command, an entry of the image's environment holds no `=`, or the template
/// sets a variable without a name. Nothing else is refused.
pub proof fn law_launch_refusals(
    config: ImageConfig,
    template: Map<Seq<char>, Seq<char>>,
    spec_env: Map<Seq<char>, Seq<char>>,
    built: Result<LaunchMetadata, BuildError>,
)
    requires
        launch_of(config, template, spec_env, built),
    ensures
        built is Ok <==> config.entrypoint@.len() + config.cmd@.len() > 0
            && !template.dom().contains(Seq::<char>::empty()) && forall|i: int|
            0 <= i < config.env@.len() ==> (#[trigger] texts(config.env@)[i]).contains('='),
        built matches Err(BuildError::EmptyCommand) ==> config.entrypoint@.len() == 0
            && config.cmd@.len() == 0,
        built matches Err(BuildError::MalformedEnv(entry)) ==> !entry@.contains('=') && texts(
            config.env@,
        ).contains(entry@),
        built matches Err(BuildError::EmptyTemplateEnvKey) ==> template.dom().contains(
            Seq::<char>::empty(),
        ),
{
    law_env_entries_whole(texts(config.env@));
}

/// The platform of an image is that of the host: the two names of the Arm
/// architecture mean one platform, and no two platforms share a name.
pub proof fn law_platforms(arch: Seq<char>)
    ensures
        platform_of("x86_64"@) == Some(Platform::LinuxAmd64),
        platform_of("aarch64"@) == Some(Platform::LinuxArm64),
        platform_of("arm64"@) == Some(Platform::LinuxArm64),
        platform_of(arch) is Some ==> arch == "x86_64"@ || arch == "aarch64"@ || arch == "arm64"@,
        Platform::LinuxAmd64.arch_text() == "amd64"@,
        Platform::LinuxArm64.arch_text() == "arm64"@,
{
    reveal_strlit("x86_64");
    reveal_strlit("aarch64");
    reveal_strlit("arm64");
    assert("x86_64"@[0] == 'x' && "aarch64"@[0] == 'a' && "arm64"@[0] == 'a');
}

/// The names of the guest's variables: the prefix of their kind and their number
/// in decimal digits.
pub proof fn law_guest_names(i: nat)
    ensures
        "OPENSHELL_OCI_ARGV_"@.is_prefix_of(argv_name(i)),
        parsed_number(argv_name(i).skip("OPENSHELL_OCI_ARGV_"@.len() as int)) == Some(i),
        "OPENSHELL_OCI_ENV_"@.is_prefix_of(env_name(i)),
        parsed_number(env_name(i).skip("OPENSHELL_OCI_ENV_"@.len() as int)) == Some(i),
{
    lemma_parse_of_decimal(i);
    let a = "OPENSHELL_OCI_ARGV_"@;
    let b = "OPENSHELL_OCI_ENV_"@;
    assert(a =~= argv_name(i).subrange(0, a.len() as int));
    assert(argv_name(i).skip(a.len() as int) =~= decimal(i));
    assert(b =~= env_name(i).subrange(0, b.len() as int));
    assert(env_name(i).skip(b.len() as int) =~= decimal(i));
}

/// A variable of the environment reaches the guest as its key, `=` and its value,
/// whatever characters either holds, in the place that it has in the launch.
pub proof fn law_guest_env_whole(
    argv: Seq<Seq<char>>,
    env: Seq<(Seq<char>, Seq<char>)>,
    workdir: Seq<char>,
    i: int,
)
    requires
        0 <= i < env.len(),
    ensures
        guest_vars(argv, env, workdir)[argv.len() + 2 + i] == (
            env_name(i as nat),
            env[i].0 + seq!['='] + env[i].1,
        ),
        guest_vars(argv, env, workdir).len() == argv.len() + env.len() + 3,
{
    reveal_strlit("=");
    assert("="@ =~= seq!['=']);
}

/// The text of a refusal holds the entry that is at fault, where there is one, and
/// no two refusals are told alike.
pub proof fn law_build_error_texts(entry: String)
    ensures
        entry@.is_suffix_of(BuildError::MalformedEnv(entry).text()),
        BuildError::EmptyCommand.text() != BuildError::MalformedEnv(entry).text(),
        BuildError::EmptyCommand.text() != BuildError::EmptyTemplateEnvKey.text(),
        BuildError::EmptyTemplateEnvKey.text() != BuildError::MalformedEnv(entry).text(),
{
    reveal_strlit("image config has no runnable command (Entrypoint and Cmd are both empty)");
    reveal_strlit("image env entry is not KEY=VALUE: ");
    reveal_strlit("template env entry has empty key");
    let t = BuildError::MalformedEnv(entry).text();
    assert(entry@ =~= t.subrange(t.len() - entry@.len(), t.len() as int));
    assert(BuildError::EmptyCommand.text()[6] == 'c');
    assert(t[6] == 'e');
    assert(t[0] == 'i');
    assert(BuildError::EmptyTemplateEnvKey.text()[0] == 't');
    assert(BuildError::EmptyCommand.text()[0] == 'i');
}

/// Two launches that hold the same values hold the same arguments, variables,
/// working directory, labels and stop signal.
pub proof fn law_same_launch(a: LaunchMetadata, b: LaunchMetadata)
    requires
        a.same_as(b),
    ensures
        a.argv@.len() == b.argv@.len(),
        forall|i: int| 0 <= i < a.argv@.len() ==> (#[trigger] a.argv@[i])@ == b.argv@[i]@,
        a.env@.len() == b.env@.len(),
        forall|i: int|
            0 <= i < a.env@.len() ==> (#[trigger] a.env@[i]).0@ == b.env@[i].0@ && a.env@[i].1@
                == b.env@[i].1@,
        a.workdir@ == b.workdir@,
        a.labels@ == b.labels@,
        a.stop_signal@ == b.stop_signal@,
{
    assert(texts(a.argv@).len() == texts(b.argv@).len());
    assert(text_pairs(a.env@).len() == text_pairs(b.env@).len());
    assert forall|i: int| 0 <= i < a.argv@.len() implies (#[trigger] a.argv@[i])@ == b.argv@[i]@ by {
        assert(texts(a.argv@)[i] == texts(b.argv@)[i]);
    }
    assert forall|i: int| 0 <= i < a.env@.len() implies (#[trigger] a.env@[i]).0@ == b.env@[i].0@
        && a.env@[i].1@ == b.env@[i].1@ by {
        assert(text_pairs(a.env@)[i] == text_pairs(b.env@)[i]);
    }
}

} // verus!
