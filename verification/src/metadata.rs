//! Bookkeeping between commands: where each build's artifacts and outputs
//! live, and whether the previous run terminated gracefully. The
//! surrounding program loads and stores this record; the paths and the
//! artifact table are computed here.

use vstd::prelude::*;

verus! {

/// Joins a directory and a name with a separator.
pub fn path_join(dir: &str, name: &str) -> (r: String)
    ensures
        r@ == dir@ + "/"@ + name@,
{
    let mut out = String::from_str(dir);
    out.append("/");
    out.append(name);
    out
}

/// Returns the path to the tool's artifacts and outputs.
pub fn get_rauk_output_path(project_dir: &str) -> (r: String)
    ensures
        r@ == project_dir@ + "/"@ + "target/rauk"@,
{
    path_join(project_dir, "target/rauk")
}

/// Returns the path to the metadata file.
pub fn get_metadata_path(project_dir: &str) -> (r: String)
    ensures
        r@ == (project_dir@ + "/"@ + "target/rauk"@) + "/"@ + "rauk_metadata.json"@,
{
    let out = get_rauk_output_path(project_dir);
    path_join(out.as_str(), "rauk_metadata.json")
}

/// Relies on chrono: the current wall-clock time, formatted per RFC 3339.
/// Nothing is assumed of the value; it depends on the clock.
#[verifier::external_body]
fn now_rfc3339() -> String {
    chrono::Utc::now().to_rfc3339()
}

/// Where one command left its output, and when.
#[derive(Debug)]
pub struct OutputInfo {
    /// The path of the output.
    pub output_path: Option<String>,
    /// When the output last changed, per RFC 3339.
    pub last_changed: Option<String>,
}

impl OutputInfo {
    /// Output information stamped with the time of the call.
    pub fn new(output_path: Option<String>) -> (r: OutputInfo)
        ensures
            r.output_path == output_path,
            r.last_changed is Some,
    {
        let time = now_rfc3339();
        OutputInfo { output_path, last_changed: Some(time) }
    }
}

/// Specific details of one built artifact.
#[derive(Debug)]
pub struct ArtifactDetail {
    /// What the generate command produced.
    pub generate_output: Option<OutputInfo>,
    /// What the flash command produced.
    pub flash_output: Option<OutputInfo>,
    /// What the measure command produced.
    pub measure_output: Option<OutputInfo>,
}

impl ArtifactDetail {
    /// A detail record with nothing recorded yet.
    pub fn new() -> (r: ArtifactDetail)
        ensures
            r.generate_output is None,
            r.flash_output is None,
            r.measure_output is None,
    {
        ArtifactDetail { generate_output: None, flash_output: None, measure_output: None }
    }

    /// Return the path of the flashed binary with debug information, if it
    /// exists.
    pub fn get_dwarf_path(&self) -> (r: Option<&String>)
        ensures
            match r {
                Some(p) => self.flash_output matches Some(o) && o.output_path == Some(*p),
                None => self.flash_output is None || self.flash_output.unwrap().output_path
                    is None,
            },
    {
        match &self.flash_output {
            Some(flash_output) => match &flash_output.output_path {
                Some(p) => Some(p),
                None => None,
            },
            None => None,
        }
    }

    /// Return the path of the generated test vectors, if it exists.
    pub fn get_ktest_path(&self) -> (r: Option<&String>)
        ensures
            match r {
                Some(p) => self.generate_output matches Some(o) && o.output_path == Some(*p),
                None => self.generate_output is None || self.generate_output.unwrap().output_path
                    is None,
            },
    {
        match &self.generate_output {
            Some(generate_output) => match &generate_output.output_path {
                Some(p) => Some(p),
                None => None,
            },
            None => None,
        }
    }
}

/// The model of an artifact table.
pub open spec fn artifact_table_model(v: Seq<(String, ArtifactDetail)>) -> Seq<
    (Seq<char>, ArtifactDetail),
> {
    v.map_values(|p: (String, ArtifactDetail)| (p.0@, p.1))
}

/// The first index in an artifact table bound to `k` at or after `i`.
pub open spec fn artifact_index_from(m: Seq<(Seq<char>, ArtifactDetail)>, k: Seq<char>, i: int) -> Option<
    int,
>
    decreases m.len() - i,
{
    if i < 0 || i >= m.len() {
        None
    } else if m[i].0 == k {
        Some(i)
    } else {
        artifact_index_from(m, k, i + 1)
    }
}

/// The artifacts of one build kind, addressed by name.
#[derive(Debug)]
pub struct ArtifactType {
    /// The binary targets.
    pub bin: Vec<(String, ArtifactDetail)>,
    /// The examples.
    pub examples: Vec<(String, ArtifactDetail)>,
}

/// All artifacts, split by build mode.
#[derive(Debug)]
pub struct Artifacts {
    /// The release builds.
    pub release: ArtifactType,
    /// The debug builds.
    pub debug: ArtifactType,
}

/// Whether the previous run terminated gracefully.
#[derive(Debug)]
pub struct PreviousExecution {
    /// Set once the run completes and restores what it changed.
    pub gracefully_terminated: bool,
}

impl Default for PreviousExecution {
    /// A fresh record: not yet terminated gracefully.
    fn default() -> (r: PreviousExecution)
        ensures
            !r.gracefully_terminated,
    {
        PreviousExecution { gracefully_terminated: false }
    }
}

/// Information about the output of every command, kept between commands.
#[derive(Debug)]
pub struct RaukMetadata {
    /// The project directory.
    pub project_directory: String,
    /// The tool's output directory inside the project.
    pub rauk_output_directory: String,
    /// Whether the previous run terminated gracefully.
    pub previous_execution: PreviousExecution,
    /// The artifact table.
    pub artifacts: Artifacts,
}

impl RaukMetadata {
    /// A fresh record for a project directory.
    pub fn new(project_dir: &str) -> (r: RaukMetadata)
        ensures
            r.project_directory@ == project_dir@,
            r.rauk_output_directory@ == project_dir@ + "/"@ + "target/rauk"@,
            !r.previous_execution.gracefully_terminated,
            r.artifacts.release.bin@.len() == 0,
            r.artifacts.release.examples@.len() == 0,
            r.artifacts.debug.bin@.len() == 0,
            r.artifacts.debug.examples@.len() == 0,
    {
        RaukMetadata {
            project_directory: String::from_str(project_dir),
            rauk_output_directory: get_rauk_output_path(project_dir),
            previous_execution: PreviousExecution { gracefully_terminated: false },
            artifacts: Artifacts {
                release: ArtifactType { bin: Vec::new(), examples: Vec::new() },
                debug: ArtifactType { bin: Vec::new(), examples: Vec::new() },
            },
        }
    }

    /// Return the details of an artifact if it exists.
    pub fn get_artifact_detail(&self, name: &String, release: bool, example: bool) -> (r: Option<
        &ArtifactDetail,
    >)
        ensures
            ({
                let table = if release && example {
                    self.artifacts.release.examples@
                } else if release && !example {
                    self.artifacts.release.bin@
                } else if !release && example {
                    self.artifacts.debug.examples@
                } else {
                    self.artifacts.debug.bin@
                };
                let m = artifact_table_model(table);
                match r {
                    Some(d) => artifact_index_from(m, name@, 0) matches Some(idx) && 0 <= idx
                        < m.len() && m[idx].1 == *d,
                    None => artifact_index_from(m, name@, 0) is None,
                }
            }),
    {
        match (release, example) {
            (true, true) => table_get(&self.artifacts.release.examples, name),
            (true, false) => table_get(&self.artifacts.release.bin, name),
            (false, true) => table_get(&self.artifacts.debug.examples, name),
            (false, false) => table_get(&self.artifacts.debug.bin, name),
        }
    }

    /// Insert an artifact with a name into the table, replacing any
    /// earlier entry under that name.
    pub fn insert(&mut self, name: &String, detail: ArtifactDetail, release: bool, example: bool)
        ensures
            ({
                let old_table = if release && example {
                    old(self).artifacts.release.examples@
                } else if release && !example {
                    old(self).artifacts.release.bin@
                } else if !release && example {
                    old(self).artifacts.debug.examples@
                } else {
                    old(self).artifacts.debug.bin@
                };
                let new_table = if release && example {
                    final(self).artifacts.release.examples@
                } else if release && !example {
                    final(self).artifacts.release.bin@
                } else if !release && example {
                    final(self).artifacts.debug.examples@
                } else {
                    final(self).artifacts.debug.bin@
                };
                let m = artifact_table_model(old_table);
                let m2 = artifact_table_model(new_table);
                match artifact_index_from(m, name@, 0) {
                    Some(idx) => m2 == m.update(idx, (name@, detail)),
                    None => m2 == m.push((name@, detail)),
                }
            }),
            final(self).project_directory == old(self).project_directory,
            final(self).rauk_output_directory == old(self).rauk_output_directory,
            final(self).previous_execution == old(self).previous_execution,
            !(release && example) ==> final(self).artifacts.release.examples == old(
                self,
            ).artifacts.release.examples,
            !(release && !example) ==> final(self).artifacts.release.bin == old(
                self,
            ).artifacts.release.bin,
            !(!release && example) ==> final(self).artifacts.debug.examples == old(
                self,
            ).artifacts.debug.examples,
            !(!release && !example) ==> final(self).artifacts.debug.bin == old(
                self,
            ).artifacts.debug.bin,
    {
        match (release, example) {
            (true, true) => table_insert(&mut self.artifacts.release.examples, name, detail),
            (true, false) => table_insert(&mut self.artifacts.release.bin, name, detail),
            (false, true) => table_insert(&mut self.artifacts.debug.examples, name, detail),
            (false, false) => table_insert(&mut self.artifacts.debug.bin, name, detail),
        }
    }
}

/// Looks a name up in an artifact table.
fn table_get<'a>(table: &'a Vec<(String, ArtifactDetail)>, name: &String) -> (r: Option<
    &'a ArtifactDetail,
>)
    ensures
        ({
            let m = artifact_table_model(table@);
            match r {
                Some(d) => artifact_index_from(m, name@, 0) matches Some(idx) && 0 <= idx
                    < m.len() && m[idx].1 == *d,
                None => artifact_index_from(m, name@, 0) is None,
            }
        }),
{
    let ghost m = artifact_table_model(table@);
    let n = table.len();
    let mut i: usize = 0;
    while i < n
        invariant
            n == table@.len(),
            i <= n,
            m == artifact_table_model(table@),
            artifact_index_from(m, name@, 0) == artifact_index_from(m, name@, i as int),
        decreases n - i,
    {
        if table[i].0 == *name {
            proof {
                assert(artifact_index_from(m, name@, i as int) == Some(i as int));
                assert(m[i as int] == (table@[i as int].0@, table@[i as int].1));
            }
            return Some(&table[i].1);
        }
        i += 1;
    }
    None
}

/// Binds a name in an artifact table: the first entry under the name is
/// replaced, or a new entry appended.
fn table_insert(table: &mut Vec<(String, ArtifactDetail)>, name: &String, detail: ArtifactDetail)
    ensures
        ({
            let m = artifact_table_model(old(table)@);
            let m2 = artifact_table_model(final(table)@);
            match artifact_index_from(m, name@, 0) {
                Some(idx) => m2 == m.update(idx, (name@, detail)),
                None => m2 == m.push((name@, detail)),
            }
        }),
{
    let ghost m = artifact_table_model(table@);
    let n = table.len();
    let mut i: usize = 0;
    while i < n
        invariant
            n == table@.len(),
            i <= n,
            table == old(table),
            m == artifact_table_model(table@),
            artifact_index_from(m, name@, 0) == artifact_index_from(m, name@, i as int),
        decreases n - i,
    {
        if table[i].0 == *name {
            table[i] = (name.clone(), detail);
            proof {
                assert(artifact_table_model(final(table)@)
                    =~= m.update(i as int, (name@, detail)));
            }
            return ;
        }
        i += 1;
    }
    table.push((name.clone(), detail));
    proof {
        assert(artifact_table_model(final(table)@) =~= m.push(
            (name@, detail),
        ));
    }
}

} // verus!
