//! The set of installed plugin executables (`~/.nightcrow/plugins`).
//!
//! Installing a binary here does not switch it on: the host only launches a
//! plugin that the configuration declares and that some pane can reach. That
//! edit is left to the user: a plugin can drive a pane's terminal, so the file
//! that grants it that has to be one a person read.

use crate::config::layout::{PluginConfig, StartupCommand};
use crate::home::{home_dir, is_below, path_below, NoHome};
use crate::native::{
    law_paths_are_put_together_as_spelled, native_joined, spelled, NativePath,
};
use crate::paths::{
    extension, extension_of, file_name, file_stem, name_of, parse, parts_of, stem_of,
    PartModel,
};
use crate::sorting::{in_order, sort};
use crate::text::{
    ascii_lower, ascii_lowered, chars_of, pieces, same_chars, same_text, split_char, texts,
};
use vstd::prelude::*;
use vstd::utf8::{encode_utf8, is_ascii_chars, is_ascii_chars_encode_utf8};

verus! {

/// Longest accepted plugin name, in bytes.
pub const MAX_NAME_LEN: usize = 64;

/// `~/.nightcrow/plugins`, whether or not it exists yet.
pub fn default_plugins_dir() -> (r: Result<NativePath, NoHome>)
    ensures
        exists|home: Option<NativePath>| #[trigger] is_below(home, ".nightcrow/plugins"@, r),
{
    let home = home_dir();
    plugins_dir_in(&home)
}

/// The plugins' directory, given where home is.
pub fn plugins_dir_in(home: &Option<NativePath>) -> (r: Result<NativePath, NoHome>)
    ensures
        is_below(*home, ".nightcrow/plugins"@, r),
{
    path_below(home, ".nightcrow/plugins")
}

/// What an install comes to, and with it what is to be done: `Created` copies
/// the source there, `Replaced` unlinks what is there first, and
/// `AlreadyExists` touches nothing.
#[derive(Debug)]
pub enum InstallOutcome {
    Created(NativePath),
    Replaced(NativePath),
    /// A plugin of that name is installed and overwriting it was not asked for.
    AlreadyExists(NativePath),
}

/// What removing a plugin comes to. Removing something absent is a report, not
/// a failure.
#[derive(Debug)]
pub enum RemoveOutcome {
    /// The file to delete.
    Removed(NativePath),
    NotInstalled(String),
}

/// How the configuration refers to an installed plugin.
#[derive(Debug, Clone, Copy, PartialEq, Eq, Structural)]
pub struct PluginStatus {
    pub declared: bool,
    pub enabled: bool,
    /// Startup commands that name this plugin.
    pub opt_ins: usize,
}

/// Why a plugin name is refused.
#[derive(Debug, Clone, Copy, PartialEq, Eq, Structural)]
pub enum NameError {
    Empty,
    TooLong,
    Path,
    DirectoryReference,
    LeadingDash,
    BadCharacter,
}

impl NameError {
    /// The error in words.
    pub open spec fn text(self, name: Seq<char>) -> Seq<char> {
        match self {
            NameError::Empty => "a plugin name must not be empty"@,
            NameError::TooLong => "plugin name \""@ + name + "\" is longer than 64 characters"@,
            NameError::Path => "plugin name \""@ + name
                + "\" must be a single file name, not a path"@,
            NameError::DirectoryReference => "plugin name \""@ + name
                + "\" is a directory reference, not a file name"@,
            NameError::LeadingDash => "plugin name \""@ + name
                + "\" must not start with '-'; such a name is read as a flag"@,
            NameError::BadCharacter => "plugin name \""@ + name
                + "\" may only contain letters, digits, '.', '_' and '-'"@,
        }
    }

    /// The error in words.
    pub fn message(self, name: &str) -> (r: String)
        ensures
            r@ == self.text(name@),
    {
        let complaint = match self {
            NameError::Empty => {
                return "a plugin name must not be empty".to_owned();
            },
            NameError::TooLong => "\" is longer than 64 characters",
            NameError::Path => "\" must be a single file name, not a path",
            NameError::DirectoryReference => "\" is a directory reference, not a file name",
            NameError::LeadingDash => "\" must not start with '-'; such a name is read as a flag",
            NameError::BadCharacter => "\" may only contain letters, digits, '.', '_' and '-'",
        };
        "plugin name \"".to_owned().concat(name).concat(complaint)
    }
}

/// Whether `c` may stand in a plugin name.
pub open spec fn name_char(c: char) -> bool {
    ('a' <= c <= 'z') || ('A' <= c <= 'Z') || ('0' <= c <= '9') || c == '.' || c == '_' || c == '-'
}

fn is_name_char(c: char) -> (r: bool)
    ensures
        r == name_char(c),
{
    ('a' <= c && c <= 'z') || ('A' <= c && c <= 'Z') || ('0' <= c && c <= '9') || c == '.' || c
        == '_' || c == '-'
}

/// Whether every character of `name` may stand in one.
pub open spec fn all_name_chars(name: Seq<char>) -> bool {
    forall|i: int| 0 <= i < name.len() ==> name_char(#[trigger] name[i])
}

/// What is wrong with a plugin name, if anything: the first of these.
pub open spec fn name_fault(name: Seq<char>) -> Option<NameError> {
    if name.len() == 0 {
        Some(NameError::Empty)
    } else if encode_utf8(name).len() > MAX_NAME_LEN {
        Some(NameError::TooLong)
    } else if name.contains('/') || name.contains('\\') {
        Some(NameError::Path)
    } else if name == "."@ || name == ".."@ {
        Some(NameError::DirectoryReference)
    } else if name[0] == '-' {
        Some(NameError::LeadingDash)
    } else if !all_name_chars(name) {
        Some(NameError::BadCharacter)
    } else {
        None
    }
}

fn has_char(chars: &[char], c: char) -> (r: bool)
    ensures
        r == chars@.contains(c),
{
    let mut i: usize = 0;
    while i < chars.len()
        invariant
            i <= chars@.len(),
            forall|k: int| 0 <= k < i ==> chars@[k] != c,
        decreases chars.len() - i,
    {
        if chars[i] == c {
            return true;
        }
        i += 1;
    }
    false
}

fn only_name_chars(chars: &[char]) -> (r: bool)
    ensures
        r == all_name_chars(chars@),
{
    let mut i: usize = 0;
    while i < chars.len()
        invariant
            i <= chars@.len(),
            forall|k: int| 0 <= k < i ==> name_char(#[trigger] chars@[k]),
        decreases chars.len() - i,
    {
        if !is_name_char(chars[i]) {
            return false;
        }
        i += 1;
    }
    true
}

/// Accept only a safe single file name.
///
/// The name is joined onto the plugins' directory and then written to and
/// deleted, so anything that could escape that directory is refused here rather
/// than sanitised. A leading `-` is refused too, because such a file name is
/// read as a flag by every command the user might later point at it.
pub fn validate_name(name: &str) -> (r: Result<(), NameError>)
    ensures
        match name_fault(name@) {
            None => r is Ok,
            Some(fault) => r == Err::<(), NameError>(fault),
        },
{
    let chars = chars_of(name);
    if chars.len() == 0 {
        return Err(NameError::Empty);
    }
    if name.as_bytes().len() > MAX_NAME_LEN {
        return Err(NameError::TooLong);
    }
    if has_char(&chars, '/') || has_char(&chars, '\\') {
        return Err(NameError::Path);
    }
    if same_text(name, ".") || same_text(name, "..") {
        return Err(NameError::DirectoryReference);
    }
    if chars[0] == '-' {
        return Err(NameError::LeadingDash);
    }
    if !only_name_chars(&chars) {
        return Err(NameError::BadCharacter);
    }
    Ok(())
}

/// What an install sees of its source.
#[derive(Debug, Clone, Copy, PartialEq, Eq, Structural)]
pub struct SourceFacts {
    /// Whether it can be looked at, without following it as a link.
    pub readable: bool,
    pub is_symlink: bool,
    /// Whether, where it is a link, what it leads to can be looked at.
    pub target_readable: bool,
    /// Whether it is a regular file, or leads to one.
    pub is_file: bool,
    /// Whether the current user may execute it.
    pub executable: bool,
}

/// Why an install is refused.
#[derive(Debug, Clone, Copy, PartialEq, Eq, Structural)]
pub enum InstallError {
    /// No name was given and the source has none to take one from.
    NoName,
    Name(NameError),
    Unreadable,
    BrokenLink,
    NotAFile,
    NotExecutable,
}

/// What keeps a source from being installed, if anything: the first of these.
pub open spec fn source_fault(facts: SourceFacts) -> Option<InstallError> {
    if !facts.readable {
        Some(InstallError::Unreadable)
    } else if facts.is_symlink && !facts.target_readable {
        Some(InstallError::BrokenLink)
    } else if !facts.is_file {
        Some(InstallError::NotAFile)
    } else if !facts.executable {
        Some(InstallError::NotExecutable)
    } else {
        None
    }
}

/// Whether a source can be installed: an existing regular file, itself or
/// behind a link, that the current user may execute.
pub fn check_source(facts: SourceFacts) -> (r: Result<(), InstallError>)
    ensures
        match source_fault(facts) {
            None => r is Ok,
            Some(fault) => r == Err::<(), InstallError>(fault),
        },
{
    if !facts.readable {
        return Err(InstallError::Unreadable);
    }
    if facts.is_symlink && !facts.target_readable {
        return Err(InstallError::BrokenLink);
    }
    if !facts.is_file {
        return Err(InstallError::NotAFile);
    }
    if !facts.executable {
        return Err(InstallError::NotExecutable);
    }
    Ok(())
}

impl InstallError {
    /// The error in words, for the source at `source` and the name `name`.
    pub open spec fn text(self, source: Seq<char>, name: Seq<char>) -> Seq<char> {
        match self {
            InstallError::NoName => "cannot derive a plugin name from "@ + source
                + "; pass --name"@,
            InstallError::Name(error) => error.text(name),
            InstallError::Unreadable => "plugin source "@ + source
                + " cannot be read; it must be an existing executable file"@,
            InstallError::BrokenLink => "plugin source "@ + source + " is a broken symlink"@,
            InstallError::NotAFile => "plugin source "@ + source + " is not a regular file"@,
            InstallError::NotExecutable => "plugin source "@ + source
                + " is not executable by the current user; chmod +x it first"@,
        }
    }

    /// The error in words.
    pub fn message(self, source: &str, name: &str) -> (r: String)
        ensures
            r@ == self.text(source@, name@),
    {
        match self {
            InstallError::NoName => "cannot derive a plugin name from ".to_owned().concat(
                source,
            ).concat("; pass --name"),
            InstallError::Name(error) => error.message(name),
            InstallError::Unreadable => "plugin source ".to_owned().concat(source).concat(
                " cannot be read; it must be an existing executable file",
            ),
            InstallError::BrokenLink => "plugin source ".to_owned().concat(source).concat(
                " is a broken symlink",
            ),
            InstallError::NotAFile => "plugin source ".to_owned().concat(source).concat(
                " is not a regular file",
            ),
            InstallError::NotExecutable => "plugin source ".to_owned().concat(source).concat(
                " is not executable by the current user; chmod +x it first",
            ),
        }
    }
}

/// The name a source gives a plugin: its file name without the extension.
pub open spec fn derived_name(source: Seq<char>) -> Option<Seq<char>> {
    match name_of(parts_of(source)) {
        Some(name) => Some(stem_of(name)),
        None => None,
    }
}

/// The name a source gives a plugin.
pub fn derive_name(source: &str) -> (r: Result<String, InstallError>)
    ensures
        match derived_name(source@) {
            Some(name) => r matches Ok(got) && got@ == name,
            None => r == Err::<String, InstallError>(InstallError::NoName),
        },
{
    let parts = parse(source);
    match file_name(parts.as_slice()) {
        Some(name) => Ok(file_stem(name.as_str())),
        None => Err(InstallError::NoName),
    }
}

/// The name an install goes by: the one given, else the source's own.
pub open spec fn install_name(source: Seq<char>, name: Option<&str>) -> Option<Seq<char>> {
    match name {
        Some(name) => Some(name@),
        None => derived_name(source),
    }
}

/// What refuses an install, if anything: the first of these.
pub open spec fn install_fault(
    source: Seq<char>,
    name: Option<&str>,
    facts: SourceFacts,
) -> Option<InstallError> {
    match install_name(source, name) {
        None => Some(InstallError::NoName),
        Some(name) => match name_fault(name) {
            Some(fault) => Some(InstallError::Name(fault)),
            None => source_fault(facts),
        },
    }
}

/// Where the plugin `name` is kept.
pub open spec fn plugin_in(base: Seq<u8>, name: Seq<char>) -> Seq<u8> {
    native_joined(base, encode_utf8(name))
}

/// Where the plugin `name` is kept.
pub fn plugin_path(base: &NativePath, name: &str) -> (r: NativePath)
    ensures
        r@ == plugin_in(base@, name@),
{
    base.join(name)
}

/// The path an install looks at and writes to, once its name is known to be
/// safe.
pub fn install_path(base: &NativePath, source: &str, name: Option<&str>) -> (r: Result<
    NativePath,
    InstallError,
>)
    ensures
        match install_name(source@, name) {
            None => r == Err::<NativePath, InstallError>(InstallError::NoName),
            Some(name) => match name_fault(name) {
                Some(fault) => r == Err::<NativePath, InstallError>(InstallError::Name(fault)),
                None => r matches Ok(path) && path@ == plugin_in(base@, name),
            },
        },
{
    let name = match name {
        Some(name) => name.to_owned(),
        None => match derive_name(source) {
            Ok(name) => name,
            Err(error) => {
                return Err(error);
            },
        },
    };
    if let Err(error) = validate_name(name.as_str()) {
        return Err(InstallError::Name(error));
    }
    Ok(plugin_path(base, name.as_str()))
}

/// Where the executable at `source` is to go in `base`, given whether something
/// stands there already: `installed` is asked of the path that `install_path`
/// gives.
pub fn install(
    base: &NativePath,
    source: &str,
    name: Option<&str>,
    force: bool,
    facts: SourceFacts,
    installed: bool,
) -> (r: Result<InstallOutcome, InstallError>)
    ensures
        match install_fault(source@, name, facts) {
            Some(fault) => r == Err::<InstallOutcome, InstallError>(fault),
            None => {
                let dest = plugin_in(base@, install_name(source@, name)->Some_0);
                if !installed {
                    r matches Ok(InstallOutcome::Created(path)) && path@ == dest
                } else if force {
                    r matches Ok(InstallOutcome::Replaced(path)) && path@ == dest
                } else {
                    r matches Ok(InstallOutcome::AlreadyExists(path)) && path@ == dest
                }
            },
        },
{
    let dest = match install_path(base, source, name) {
        Ok(dest) => dest,
        Err(error) => {
            return Err(error);
        },
    };
    if let Err(error) = check_source(facts) {
        return Err(error);
    }
    if !installed {
        Ok(InstallOutcome::Created(dest))
    } else if force {
        Ok(InstallOutcome::Replaced(dest))
    } else {
        Ok(InstallOutcome::AlreadyExists(dest))
    }
}

/// An entry of the plugins' directory.
#[derive(Debug)]
pub struct InstalledEntry {
    pub name: String,
    /// Whether it is a regular file, or leads to one.
    pub is_file: bool,
}

/// The names of the entries that are files.
pub open spec fn file_names(entries: Seq<InstalledEntry>) -> Seq<String>
    decreases entries.len(),
{
    if entries.len() == 0 {
        Seq::empty()
    } else {
        let before = file_names(entries.drop_last());
        if entries.last().is_file {
            before.push(entries.last().name)
        } else {
            before
        }
    }
}

/// Installed plugin names, sorted. `None` stands for a directory that does not
/// exist, which lists as empty: that is the state before the first install, not
/// an error.
pub fn list(entries: Option<&Vec<InstalledEntry>>) -> (r: Vec<String>)
    ensures
        match entries {
            None => r@.len() == 0,
            Some(entries) => in_order(r@) && r@.to_multiset() == file_names(
                entries@,
            ).to_multiset(),
        },
{
    let entries = match entries {
        None => {
            return Vec::new();
        },
        Some(entries) => entries,
    };
    let mut names: Vec<String> = Vec::new();
    let mut i: usize = 0;
    proof {
        assert(entries@.take(0) =~= Seq::<InstalledEntry>::empty());
    }
    while i < entries.len()
        invariant
            i <= entries@.len(),
            names@ == file_names(entries@.take(i as int)),
        decreases entries.len() - i,
    {
        proof {
            assert(entries@.take(i + 1).drop_last() =~= entries@.take(i as int));
            assert(entries@.take(i + 1).last() == entries@[i as int]);
        }
        if entries[i].is_file {
            names.push(entries[i].name.clone());
        }
        i += 1;
    }
    proof {
        assert(entries@.take(i as int) =~= entries@);
    }
    sort(names)
}

/// What removing `name` from `base` comes to, given whether something stands at
/// its path.
pub fn remove(base: &NativePath, name: &str, installed: bool) -> (r: Result<
    RemoveOutcome,
    NameError,
>)
    ensures
        match name_fault(name@) {
            Some(fault) => r == Err::<RemoveOutcome, NameError>(fault),
            None => if installed {
                r matches Ok(RemoveOutcome::Removed(path)) && path@ == plugin_in(
                    base@,
                    name@,
                )
            } else {
                r matches Ok(RemoveOutcome::NotInstalled(n)) && n@ == name@
            },
        },
{
    if let Err(error) = validate_name(name) {
        return Err(error);
    }
    if !installed {
        return Ok(RemoveOutcome::NotInstalled(name.to_owned()));
    }
    Ok(RemoveOutcome::Removed(plugin_path(base, name)))
}

/// The first plugin of that name that is declared.
pub open spec fn declared(plugins: Seq<PluginConfig>, name: Seq<char>) -> Option<PluginConfig>
    decreases plugins.len(),
{
    if plugins.len() == 0 {
        None
    } else if plugins[0].name@ == name {
        Some(plugins[0])
    } else {
        declared(plugins.skip(1), name)
    }
}

/// Whether a startup command names the plugin.
pub open spec fn opts_in(command: StartupCommand, name: Seq<char>) -> bool {
    command.plugin matches Some(plugin) && plugin@ == name
}

/// How many startup commands name the plugin.
pub open spec fn opt_in_count(commands: Seq<StartupCommand>, name: Seq<char>) -> nat
    decreases commands.len(),
{
    if commands.len() == 0 {
        0
    } else {
        opt_in_count(commands.drop_last(), name) + if opts_in(commands.last(), name) {
            1nat
        } else {
            0nat
        }
    }
}

/// What the configuration says about `name`.
pub fn status(
    plugins: &Vec<PluginConfig>,
    startup_commands: &Vec<StartupCommand>,
    name: &str,
) -> (r: PluginStatus)
    ensures
        r.declared == (declared(plugins@, name@) is Some),
        r.enabled == (declared(plugins@, name@) matches Some(p) && p.enabled),
        r.opt_ins == opt_in_count(startup_commands@, name@),
{
    let mut found = false;
    let mut enabled = false;
    let mut i: usize = 0;
    proof {
        assert(plugins@.skip(0) =~= plugins@);
    }
    while i < plugins.len() && !found
        invariant
            i <= plugins@.len(),
            found ==> declared(plugins@, name@) is Some && declared(plugins@, name@)->Some_0.enabled
                == enabled,
            !found ==> !enabled && declared(plugins@, name@) == declared(
                plugins@.skip(i as int),
                name@,
            ),
        decreases plugins.len() - i,
    {
        proof {
            assert(plugins@.skip(i as int).skip(1) =~= plugins@.skip(i + 1));
            assert(plugins@.skip(i as int)[0] == plugins@[i as int]);
        }
        if same_text(plugins[i].name.as_str(), name) {
            found = true;
            enabled = plugins[i].enabled;
        }
        i += 1;
    }
    let mut opt_ins: usize = 0;
    let mut j: usize = 0;
    proof {
        assert(startup_commands@.take(0) =~= Seq::<StartupCommand>::empty());
    }
    while j < startup_commands.len()
        invariant
            j <= startup_commands@.len(),
            opt_ins <= j,
            opt_ins == opt_in_count(startup_commands@.take(j as int), name@),
        decreases startup_commands.len() - j,
    {
        proof {
            assert(startup_commands@.take(j + 1).drop_last() =~= startup_commands@.take(j as int));
            assert(startup_commands@.take(j + 1).last() == startup_commands@[j as int]);
        }
        if let Some(plugin) = &startup_commands[j].plugin {
            if same_text(plugin.as_str(), name) {
                opt_ins += 1;
            }
        }
        j += 1;
    }
    proof {
        assert(startup_commands@.take(j as int) =~= startup_commands@);
    }
    PluginStatus { declared: found, enabled, opt_ins }
}

/// `value` as it stands between quotes: with its backslashes and quotes
/// escaped.
pub open spec fn escaped(value: Seq<char>) -> Seq<char>
    decreases value.len(),
{
    if value.len() == 0 {
        value
    } else {
        let before = escaped(value.drop_last());
        let c = value.last();
        if c == '\\' || c == '"' {
            before.push('\\').push(c)
        } else {
            before.push(c)
        }
    }
}

/// `value` as it stands between quotes.
pub fn toml_escape(value: &str) -> (r: String)
    ensures
        r@ == escaped(value@),
{
    let chars = chars_of(value);
    let mut out = String::new();
    let mut i: usize = 0;
    proof {
        assert(chars@.take(0) =~= Seq::<char>::empty());
        assert(out@ =~= escaped(chars@.take(0)));
    }
    while i < chars.len()
        invariant
            i <= chars@.len(),
            out@ == escaped(chars@.take(i as int)),
        decreases chars.len() - i,
    {
        proof {
            assert(chars@.take(i + 1).drop_last() =~= chars@.take(i as int));
            assert(chars@.take(i + 1).last() == chars@[i as int]);
        }
        if chars[i] == '\\' || chars[i] == '"' {
            out.push('\\');
        }
        out.push(chars[i]);
        i += 1;
    }
    proof {
        assert(chars@.take(i as int) =~= chars@);
    }
    out
}

/// The block to paste into the configuration after an install.
///
/// Printed, never written: enabling a plugin hands it a pane's terminal, so the
/// opt-in stays an explicit edit the user reads. Not enabled and with no resume
/// flags are the off positions of both switches.
pub fn config_snippet(name: &str, command: &str) -> (r: String)
    ensures
        r@ == "[[plugin]]\nname = \""@ + name@ + "\"\ncommand = \""@ + escaped(command@)
            + "\"\nargs = []\nallowed_resume_flags = []\nenabled = false\n"@,
{
    "[[plugin]]\nname = \"".to_owned().concat(name).concat("\"\ncommand = \"").concat(
        toml_escape(command).as_str(),
    ).concat("\"\nargs = []\nallowed_resume_flags = []\nenabled = false\n")
}

/// What `escaped` made of a text, read back: a backslash gives way to the
/// character behind it.
pub open spec fn unescaped(value: Seq<char>) -> Seq<char>
    decreases value.len(),
{
    if value.len() == 0 {
        value
    } else if value[0] == '\\' && value.len() > 1 {
        seq![value[1]] + unescaped(value.skip(2))
    } else {
        seq![value[0]] + unescaped(value.skip(1))
    }
}

proof fn lemma_escaped_front(value: Seq<char>)
    requires
        value.len() > 0,
    ensures
        escaped(value) == (if value[0] == '\\' || value[0] == '"' {
            seq!['\\', value[0]]
        } else {
            seq![value[0]]
        }) + escaped(value.skip(1)),
    decreases value.len(),
{
    if value.len() == 1 {
        assert(value.drop_last() =~= Seq::<char>::empty());
        assert(value.skip(1) =~= Seq::<char>::empty());
        assert(escaped(value) =~= (if value[0] == '\\' || value[0] == '"' {
            seq!['\\', value[0]]
        } else {
            seq![value[0]]
        }) + escaped(value.skip(1)));
    } else {
        lemma_escaped_front(value.drop_last());
        assert(value.drop_last().skip(1) =~= value.skip(1).drop_last());
        assert(value.skip(1).last() == value.last());
        assert(escaped(value) =~= (if value[0] == '\\' || value[0] == '"' {
            seq!['\\', value[0]]
        } else {
            seq![value[0]]
        }) + escaped(value.skip(1)));
    }
}

/// Escaping loses nothing: reading the escaped text back gives the text.
pub proof fn law_escaping_can_be_undone(value: Seq<char>)
    ensures
        unescaped(escaped(value)) == value,
    decreases value.len(),
{
    if value.len() > 0 {
        lemma_escaped_front(value);
        law_escaping_can_be_undone(value.skip(1));
        let c = value[0];
        let rest = escaped(value.skip(1));
        if c == '\\' || c == '"' {
            assert(escaped(value)[0] == '\\');
            assert(escaped(value)[1] == c);
            assert(escaped(value).skip(2) =~= rest);
        } else {
            assert(escaped(value)[0] == c);
            assert(escaped(value).skip(1) =~= rest);
        }
        assert(seq![c] + value.skip(1) =~= value);
    }
}

/// Whether a list of extensions, each with its dot, names `ext`, in any case.
pub open spec fn listed(list: Seq<char>, ext: Seq<char>) -> bool {
    exists|i: int|
        0 <= i < pieces(list, ';').len() && ascii_lowered(#[trigger] pieces(list, ';')[i])
            == ascii_lowered(seq!['.'] + ext)
}

fn lists(list: &str, ext: &str) -> (r: bool)
    ensures
        r == listed(list@, ext@),
{
    let dotted = ".".to_owned().concat(ext);
    proof {
        reveal_strlit(".");
        assert(dotted@ =~= seq!['.'] + ext@);
    }
    let wanted = ascii_lower(&chars_of(dotted.as_str()));
    let entries = split_char(&chars_of(list), ';');
    let mut i: usize = 0;
    while i < entries.len()
        invariant
            i <= entries@.len(),
            texts(entries@) == pieces(list@, ';'),
            wanted@ == ascii_lowered(seq!['.'] + ext@),
            forall|k: int|
                0 <= k < i ==> ascii_lowered(#[trigger] pieces(list@, ';')[k]) != wanted@,
        decreases entries.len() - i,
    {
        let entry = ascii_lower(&chars_of(entries[i].as_str()));
        proof {
            assert(texts(entries@)[i as int] == entries@[i as int]@);
            assert(pieces(list@, ';')[i as int] == entries@[i as int]@);
        }
        if same_chars(&entry, &wanted) {
            return true;
        }
        i += 1;
    }
    false
}

/// What counts as launchable where no list is given.
pub const DEFAULT_PATHEXT: &'static str =
    ".EXE;.CMD;.BAT;.COM;.PS1;.VBS;.VBE;.JS;.JSE;.WSF;.WSH;.MSC";

/// Whether a file can be launched where that goes by its extension: it has one,
/// and the system's list names it. Where the system gives no list there is a
/// default.
pub fn is_executable_by_extension(path: &str, pathext: Option<&str>) -> (r: bool)
    ensures
        r == match name_of(parts_of(path@)) {
            None => false,
            Some(name) => match extension_of(name) {
                None => false,
                Some(ext) => listed(
                    match pathext {
                        Some(list) => list@,
                        None => DEFAULT_PATHEXT@,
                    },
                    ext,
                ),
            },
        },
{
    let parts = parse(path);
    let name = match file_name(parts.as_slice()) {
        Some(name) => name,
        None => {
            return false;
        },
    };
    match extension(name.as_str()) {
        Some(ext) => match pathext {
            Some(list) => lists(list, ext.as_str()),
            None => lists(DEFAULT_PATHEXT, ext.as_str()),
        },
        None => false,
    }
}

proof fn lemma_pieces_whole(s: Seq<char>, c: char)
    requires
        !s.contains(c),
    ensures
        pieces(s, c) == seq![s],
{
    crate::text::lemma_last_index(s, c);
}

/// A name that was accepted stays inside the plugins' directory: its path is
/// that directory and the name below it, as one plain component.
pub proof fn law_accepted_names_stay_inside(base: Seq<u8>, name: Seq<char>)
    requires
        name_fault(name) is None,
    ensures
        parts_of(name) == seq![PartModel::Name(name)],
        parts_of(spelled(plugin_in(base, name))) == parts_of(spelled(base)).push(
            PartModel::Name(name),
        ),
{
    reveal_strlit(".");
    reveal_strlit("..");
    lemma_pieces_whole(name, '/');
    reveal_with_fuel(crate::paths::parts_from, 2);
    assert(parts_of(name) =~= seq![PartModel::Name(name)]);
    assert(name[0] != '/') by {
        if name[0] == '/' {
            assert(name.contains('/'));
        }
    }
    assert(is_ascii_chars(name));
    is_ascii_chars_encode_utf8(name);
    assert(spelled(encode_utf8(name)) =~= name);
    law_paths_are_put_together_as_spelled(base, encode_utf8(name));
    crate::paths::law_strip_undoes_join(spelled(base), name);
    assert(parts_of(spelled(base)) + parts_of(name) =~= parts_of(spelled(base)).push(
        PartModel::Name(name),
    ));
}

/// A name is accepted exactly where it is one to sixty-four letters, digits,
/// dots, underscores and dashes, does not begin with a dash, and is neither `.`
/// nor `..`.
pub proof fn law_plain_names_are_accepted(name: Seq<char>)
    ensures
        name_fault(name) is None <==> {
            &&& 1 <= name.len() <= 64
            &&& forall|i: int|
                0 <= i < name.len() ==> {
                    let c = #[trigger] name[i];
                    'a' <= c <= 'z' || 'A' <= c <= 'Z' || '0' <= c <= '9' || c == '.' || c == '_'
                        || c == '-'
                }
            &&& name[0] != '-'
            &&& name != seq!['.']
            &&& name != seq!['.', '.']
        },
        name_fault(name) == Some(NameError::Empty) <==> name.len() == 0,
        name_fault(name) == Some(NameError::TooLong) <==> name.len() > 0 && encode_utf8(name).len()
            > 64,
        name_fault(name) == Some(NameError::Path) <==> 0 < name.len() && encode_utf8(name).len()
            <= 64 && (name.contains('/') || name.contains('\\')),
{
    reveal_strlit(".");
    reveal_strlit("..");
    assert("."@ =~= seq!['.']);
    assert(".."@ =~= seq!['.', '.']);
    if all_name_chars(name) {
        assert(vstd::utf8::is_ascii_chars(name)) by {
            assert forall|i: int| 0 <= i < name.len() implies '\0' <= #[trigger] name[i]
                <= '\u{7f}' by {
                assert(name_char(name[i]));
            }
        }
        vstd::utf8::is_ascii_chars_encode_utf8(name);
        if name.contains('/') {
            let i = choose|i: int| 0 <= i < name.len() && name[i] == '/';
            assert(name_char(name[i]));
        }
        if name.contains('\\') {
            let i = choose|i: int| 0 <= i < name.len() && name[i] == '\\';
            assert(name_char(name[i]));
        }
    }
}

/// A file can be installed exactly where it can be read, leads somewhere if it
/// is a link, is a regular file, and may be executed; what stands against it is
/// told in this order.
pub proof fn law_installable_sources(facts: SourceFacts)
    ensures
        source_fault(facts) is None <==> facts.readable && (facts.is_symlink
            ==> facts.target_readable) && facts.is_file && facts.executable,
        !facts.readable <==> source_fault(facts) == Some(InstallError::Unreadable),
        facts.readable && facts.is_symlink && !facts.target_readable <==> source_fault(facts)
            == Some(InstallError::BrokenLink),
        facts.readable && !(facts.is_symlink && !facts.target_readable) && !facts.is_file
            <==> source_fault(facts) == Some(InstallError::NotAFile),
{
}

/// An explicit name is used; a name that is not given is derived from the
/// source. A plugin is refused for its name before its source is looked at.
pub proof fn law_given_names_are_used(
    source: Seq<char>,
    name: Option<&str>,
    facts: SourceFacts,
)
    ensures
        name matches Some(given) ==> install_name(source, name) == Some(given@),
        name is None ==> install_name(source, name) == derived_name(source),
        install_fault(source, name, facts) is None <==> install_name(source, name) is Some
            && name_fault(install_name(source, name)->0) is None && source_fault(facts) is None,
        install_name(source, name) is Some && name_fault(install_name(source, name)->0) is Some
            ==> install_fault(source, name, facts) == Some(
            InstallError::Name(name_fault(install_name(source, name)->0)->0),
        ),
        install_name(source, name) is None ==> install_fault(source, name, facts) == Some(
            InstallError::NoName,
        ),
{
}

/// Every file among the entries is listed under its name, and nothing else is;
/// each as often as it stands there.
pub proof fn law_files_are_listed(
    first: Seq<InstalledEntry>,
    second: Seq<InstalledEntry>,
    entry: InstalledEntry,
)
    ensures
        file_names(first + second) == file_names(first) + file_names(second),
        entry.is_file ==> file_names(seq![entry]) == seq![entry.name],
        !entry.is_file ==> file_names(seq![entry]).len() == 0,
    decreases second.len(),
{
    assert(seq![entry].drop_last() =~= Seq::<InstalledEntry>::empty());
    assert(file_names(seq![entry].drop_last()) =~= Seq::<String>::empty());
    if second.len() == 0 {
        assert(first + second =~= first);
    } else {
        law_files_are_listed(first, second.drop_last(), entry);
        assert((first + second).drop_last() =~= first + second.drop_last());
        assert((first + second).last() == second.last());
    }
}

/// What is declared of a plugin is the first declaration under its name.
pub proof fn law_first_declaration_counts(plugins: Seq<PluginConfig>, name: Seq<char>)
    ensures
        declared(plugins, name) is None <==> forall|i: int|
            0 <= i < plugins.len() ==> (#[trigger] plugins[i]).name@ != name,
        declared(plugins, name) matches Some(found) ==> exists|i: int|
            0 <= i < plugins.len() && #[trigger] plugins[i] == found && found.name@ == name
                && forall|j: int| 0 <= j < i ==> (#[trigger] plugins[j]).name@ != name,
    decreases plugins.len(),
{
    if plugins.len() > 0 && plugins[0].name@ != name {
        let rest = plugins.skip(1);
        law_first_declaration_counts(rest, name);
        assert(forall|i: int| 0 < i < plugins.len() ==> #[trigger] plugins[i] == rest[i - 1]);
        if declared(rest, name) is Some {
            let found = declared(rest, name)->0;
            let i = choose|i: int|
                0 <= i < rest.len() && #[trigger] rest[i] == found && found.name@ == name
                    && forall|j: int| 0 <= j < i ==> (#[trigger] rest[j]).name@ != name;
            assert(plugins[i + 1] == found);
            assert forall|j: int| 0 <= j < i + 1 implies (#[trigger] plugins[j]).name@ != name by {
                if j > 0 {
                    assert(rest[j - 1].name@ != name);
                }
            }
        } else {
            assert forall|i: int| 0 <= i < plugins.len() implies (#[trigger] plugins[i]).name@
                != name by {
                if i > 0 {
                    assert(rest[i - 1].name@ != name);
                }
            }
        }
    }
}

/// Every startup command that names the plugin counts once.
pub proof fn law_opt_ins_are_counted(commands: Seq<StartupCommand>, name: Seq<char>)
    ensures
        opt_in_count(commands, name) == commands.filter(
            |c: StartupCommand| c.plugin is Some && c.plugin->0@ == name,
        ).len(),
    decreases commands.len(),
{
    reveal(Seq::filter);
    if commands.len() > 0 {
        law_opt_ins_are_counted(commands.drop_last(), name);
    }
}

/// A backslash and a quotation mark each get a backslash in front, and every
/// other character stands for itself.
pub proof fn law_escaping_marks_two_characters(
    first: Seq<char>,
    second: Seq<char>,
    c: char,
)
    ensures
        escaped(first + second) == escaped(first) + escaped(second),
        c == '\\' || c == '"' ==> escaped(seq![c]) == seq!['\\', c],
        c != '\\' && c != '"' ==> escaped(seq![c]) == seq![c],
    decreases second.len(),
{
    assert(seq![c].drop_last() =~= Seq::<char>::empty());
    assert(escaped(seq![c].drop_last()) =~= Seq::<char>::empty());
    if second.len() == 0 {
        assert(first + second =~= first);
    } else {
        law_escaping_marks_two_characters(first, second.drop_last(), c);
        assert((first + second).drop_last() =~= first + second.drop_last());
        assert((first + second).last() == second.last());
        assert(escaped(first + second) =~= escaped(first) + escaped(second));
    }
}

/// An extension makes a file executable exactly where the list, split at its
/// semicolons, holds a dot and the extension, in any case.
pub proof fn law_listed_extensions(list: Seq<char>, ext: Seq<char>)
    ensures
        listed(list, ext) <==> exists|i: int|
            0 <= i < pieces(list, ';').len() && {
                let piece = #[trigger] pieces(list, ';')[i];
                &&& piece.len() == ext.len() + 1
                &&& piece[0] == '.'
                &&& forall|k: int|
                    0 <= k < ext.len() ==> crate::text::ascii_small(piece[k + 1]) == crate::text::ascii_small(
                        #[trigger] ext[k],
                    )
            },
{
    let want = ascii_lowered(seq!['.'] + ext);
    assert(want[0] == '.');
    assert forall|i: int| 0 <= i < pieces(list, ';').len() implies (ascii_lowered(
        #[trigger] pieces(list, ';')[i],
    ) == want <==> {
        let piece = pieces(list, ';')[i];
        &&& piece.len() == ext.len() + 1
        &&& piece[0] == '.'
        &&& forall|k: int|
            0 <= k < ext.len() ==> crate::text::ascii_small(piece[k + 1]) == crate::text::ascii_small(#[trigger] ext[k])
    }) by {
        let piece = pieces(list, ';')[i];
        let small = ascii_lowered(piece);
        if small == want {
            assert(small.len() == piece.len());
            assert(small[0] == crate::text::ascii_small(piece[0]));
            assert(piece[0] == '.');
            assert forall|k: int| 0 <= k < ext.len() implies crate::text::ascii_small(piece[k + 1])
                == crate::text::ascii_small(#[trigger] ext[k]) by {
                assert(small[k + 1] == want[k + 1]);
                assert((seq!['.'] + ext)[k + 1] == ext[k]);
            }
        }
        if piece.len() == ext.len() + 1 && piece[0] == '.' && forall|k: int|
            0 <= k < ext.len() ==> crate::text::ascii_small(piece[k + 1]) == crate::text::ascii_small(#[trigger] ext[k]) {
            assert forall|k: int| 0 <= k < piece.len() implies #[trigger] small[k] == want[k] by {
                if k > 0 {
                    assert(crate::text::ascii_small(piece[k - 1 + 1]) == crate::text::ascii_small(ext[k - 1]));
                    assert((seq!['.'] + ext)[k] == ext[k - 1]);
                }
            }
            assert(small =~= want);
        }
    }
}

/// A plugin is named after its file, without the extension, wherever that lies;
/// a file without one gives its whole name.
pub proof fn law_plugins_are_named_after_their_file(
    dir: Seq<char>,
    stem: Seq<char>,
    ext: Seq<char>,
    plain: Seq<char>,
)
    requires
        dir.len() > 0,
        stem.len() > 0,
        !ext.contains('.'),
        crate::paths::names_an_entry(stem.push('.') + ext),
        crate::paths::names_an_entry(plain),
        !plain.contains('.'),
    ensures
        derived_name(dir.push('/') + (stem.push('.') + ext)) == Some(stem),
        derived_name(stem.push('.') + ext) == Some(stem),
        derived_name(dir.push('/') + plain) == Some(plain),
        derived_name(plain) == Some(plain),
        derived_name(seq!['/']) is None,
        derived_name(Seq::<char>::empty()) is None,
{
    crate::paths::law_components_lie_between_slashes(dir, stem.push('.') + ext);
    crate::paths::law_components_lie_between_slashes(dir, plain);
    crate::paths::law_extensions_follow_the_last_dot(stem, ext, plain);
}

/// What is wrong with a name is said with the name.
pub proof fn law_name_errors_in_words(error: NameError, name: Seq<char>)
    ensures
        error is Empty ==> error.text(name) == "a plugin name must not be empty"@,
        error is TooLong ==> error.text(name) == "plugin name \""@ + name
            + "\" is longer than 64 characters"@,
        error is Path ==> error.text(name) == "plugin name \""@ + name
            + "\" must be a single file name, not a path"@,
        error is DirectoryReference ==> error.text(name) == "plugin name \""@ + name
            + "\" is a directory reference, not a file name"@,
        error is LeadingDash ==> error.text(name) == "plugin name \""@ + name
            + "\" must not start with '-'; such a name is read as a flag"@,
        error is BadCharacter ==> error.text(name) == "plugin name \""@ + name
            + "\" may only contain letters, digits, '.', '_' and '-'"@,
{
}

/// What is wrong with a source is said with its path.
pub proof fn law_install_errors_in_words(
    error: InstallError,
    source: Seq<char>,
    name: Seq<char>,
)
    ensures
        error is NoName ==> error.text(source, name) == "cannot derive a plugin name from "@
            + source + "; pass --name"@,
        error matches InstallError::Name(fault) ==> error.text(source, name) == fault.text(name),
        error is Unreadable ==> error.text(source, name) == "plugin source "@ + source
            + " cannot be read; it must be an existing executable file"@,
        error is BrokenLink ==> error.text(source, name) == "plugin source "@ + source
            + " is a broken symlink"@,
        error is NotAFile ==> error.text(source, name) == "plugin source "@ + source
            + " is not a regular file"@,
        error is NotExecutable ==> error.text(source, name) == "plugin source "@ + source
            + " is not executable by the current user; chmod +x it first"@,
{
}

} // verus!
