use vstd::prelude::*;

verus! {

/// The process-wide registry of canonical project names: built once at
/// startup, read-only afterwards, and passed to every component that builds
/// paths, so that the whole toolchain draws them from one source.
pub struct ProjectLayout {
    manifest_file_name: String,
    lock_file_name: String,
    toolchain_manifest_file_name: String,
    test_directory: String,
    source_extension: String,
    user_directory: String,
    source_directory: String,
    default_node_url: String,
    language_name: String,
    storage_key_prefix: String,
    library_entry_file_name: String,
    main_entry_file_name: String,
}

impl ProjectLayout {
    /// The registry holds exactly the canonical names.
    pub closed spec fn wf(self) -> bool {
        &&& self.manifest_file_name@ == "Forc.toml"@
        &&& self.lock_file_name@ == "Forc.lock"@
        &&& self.toolchain_manifest_file_name@ == "Cargo.toml"@
        &&& self.test_directory@ == "tests"@
        &&& self.source_extension@ == "sw"@
        &&& self.user_directory@ == ".forc"@
        &&& self.source_directory@ == "src"@
        &&& self.default_node_url@ == "127.0.0.1:4000"@
        &&& self.language_name@ == "Sway"@
        &&& self.storage_key_prefix@ == "storage_"@
        &&& self.library_entry_file_name@ == "lib.sw"@
        &&& self.main_entry_file_name@ == "main.sw"@
    }

    /// Builds the registry.
    pub fn new() -> (r: ProjectLayout)
        ensures
            r.wf(),
    {
        ProjectLayout {
            manifest_file_name: String::from_str("Forc.toml"),
            lock_file_name: String::from_str("Forc.lock"),
            toolchain_manifest_file_name: String::from_str("Cargo.toml"),
            test_directory: String::from_str("tests"),
            source_extension: String::from_str("sw"),
            user_directory: String::from_str(".forc"),
            source_directory: String::from_str("src"),
            default_node_url: String::from_str("127.0.0.1:4000"),
            language_name: String::from_str("Sway"),
            storage_key_prefix: String::from_str("storage_"),
            library_entry_file_name: String::from_str("lib.sw"),
            main_entry_file_name: String::from_str("main.sw"),
        }
    }

    /// The file name of a project's manifest.
    pub fn manifest_file_name(&self) -> (r: &String)
        requires
            self.wf(),
        ensures
            r@ == "Forc.toml"@,
    {
        &self.manifest_file_name
    }

    /// The file name of a project's lock file.
    pub fn lock_file_name(&self) -> (r: &String)
        requires
            self.wf(),
        ensures
            r@ == "Forc.lock"@,
    {
        &self.lock_file_name
    }

    /// The file name of the toolchain's own build manifest.
    pub fn toolchain_manifest_file_name(&self) -> (r: &String)
        requires
            self.wf(),
        ensures
            r@ == "Cargo.toml"@,
    {
        &self.toolchain_manifest_file_name
    }

    /// The name of a project's test directory.
    pub fn test_directory(&self) -> (r: &String)
        requires
            self.wf(),
        ensures
            r@ == "tests"@,
    {
        &self.test_directory
    }

    /// The extension of a source file.
    pub fn source_extension(&self) -> (r: &String)
        requires
            self.wf(),
        ensures
            r@ == "sw"@,
    {
        &self.source_extension
    }

    /// The name of the per-user directory of the toolchain.
    pub fn user_directory(&self) -> (r: &String)
        requires
            self.wf(),
        ensures
            r@ == ".forc"@,
    {
        &self.user_directory
    }

    /// The name of a project's source directory.
    pub fn source_directory(&self) -> (r: &String)
        requires
            self.wf(),
        ensures
            r@ == "src"@,
    {
        &self.source_directory
    }

    /// The address of the default local node.
    pub fn default_node_url(&self) -> (r: &String)
        requires
            self.wf(),
        ensures
            r@ == "127.0.0.1:4000"@,
    {
        &self.default_node_url
    }

    /// The display name of the language.
    pub fn language_name(&self) -> (r: &String)
        requires
            self.wf(),
        ensures
            r@ == "Sway"@,
    {
        &self.language_name
    }

    /// The reserved prefix of storage keys.
    pub fn storage_key_prefix(&self) -> (r: &String)
        requires
            self.wf(),
        ensures
            r@ == "storage_"@,
    {
        &self.storage_key_prefix
    }

    /// The entry file name of a library project.
    pub fn library_entry_file_name(&self) -> (r: &String)
        requires
            self.wf(),
        ensures
            r@ == "lib.sw"@,
    {
        &self.library_entry_file_name
    }

    /// The entry file name of a program project.
    pub fn main_entry_file_name(&self) -> (r: &String)
        requires
            self.wf(),
        ensures
            r@ == "main.sw"@,
    {
        &self.main_entry_file_name
    }
}

/// Law: the registry is referentially stable. Every well-formed registry
/// holds the same entries, so repeated reads within a process, through any
/// registry the process built, return identical values.
pub proof fn lemma_layout_stable(a: ProjectLayout, b: ProjectLayout)
    requires
        a.wf(),
        b.wf(),
    ensures
        a.entries() == b.entries(),
{
    assert(a.entries() =~= b.entries());
}

impl ProjectLayout {
    /// All entries of the registry, in a fixed order.
    pub closed spec fn entries(self) -> Seq<Seq<char>> {
        seq![
            self.manifest_file_name@,
            self.lock_file_name@,
            self.toolchain_manifest_file_name@,
            self.test_directory@,
            self.source_extension@,
            self.user_directory@,
            self.source_directory@,
            self.default_node_url@,
            self.language_name@,
            self.storage_key_prefix@,
            self.library_entry_file_name@,
            self.main_entry_file_name@,
        ]
    }
}

} // verus!
