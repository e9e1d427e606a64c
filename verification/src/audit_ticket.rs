//! Audit tickets: a manifest of the repository's files with their digests, sealed
//! by a hash of its own JSON text and signed together with the baseline it
//! claims; and the check of a ticket against what the repository holds now.
//!
//! Reading files, walking the tree, running git and serialising the manifest are
//! done by the caller; this module takes what they produced as plain values.
use vstd::prelude::*;
use crate::hashing::{sha256_hex, sha256_hex_spec};
use crate::text::{push_str, string_eq_str, chars_of, trim_chars, lines_of, trim, lines_spec, views_of, string_from_chars};
use crate::order::{chars_lt, compare_chars, lemma_chars_lt_facts, TextOrder};
use crate::seq_facts::lemma_filter_all_false;
use crate::clock::{unix_time_nanos, DURATION_MAX_NANOS};

verus! {

/// The text that every ticket signature starts with.
pub const AUDIT_TICKET_SEED: &'static str = "M.V.R.ESPRINT1-AUDIT-TICKET-V1";

/// The repository a manifest was taken from.
#[derive(Debug)]
pub struct RepositoryInfo {
    pub name: String,
    pub commit: String,
    pub tag: Option<String>,
}

/// The baseline (commit and tag) that a manifest claims.
#[derive(Debug)]
pub struct BaselineInfo {
    pub commit: String,
    pub tag: String,
}

/// One file of the repository: its path with `/` separators, its digest, its size.
#[derive(Debug)]
pub struct ArtifactEntry {
    pub path: String,
    pub sha256: String,
    pub size: u64,
}

/// The list of files of a repository at a baseline.
#[derive(Debug)]
pub struct Manifest {
    pub repository: RepositoryInfo,
    pub baseline: BaselineInfo,
    pub generated_at: u64,
    pub artifacts: Vec<ArtifactEntry>,
    pub manifest_hash: String,
}

/// A manifest with its signature and a summary.
#[derive(Debug)]
pub struct AuditTicket {
    pub ticket_version: String,
    pub manifest: Manifest,
    pub ticket_signature: String,
    pub summary: String,
}

/// What the check of a ticket found.
#[derive(Debug)]
pub struct VerificationReport {
    pub outcome: String,
    pub details: Vec<String>,
    pub baseline_commit: String,
    pub baseline_tag: String,
    pub mismatches: Vec<String>,
    pub missing_files: Vec<String>,
}

impl Clone for RepositoryInfo {
    fn clone(&self) -> (r: Self)
        ensures
            r == *self,
    {
        let tag = match &self.tag {
            Some(t) => Some(t.clone()),
            None => None,
        };
        RepositoryInfo { name: self.name.clone(), commit: self.commit.clone(), tag }
    }
}

impl Clone for BaselineInfo {
    fn clone(&self) -> (r: Self)
        ensures
            r == *self,
    {
        BaselineInfo { commit: self.commit.clone(), tag: self.tag.clone() }
    }
}

impl Clone for ArtifactEntry {
    fn clone(&self) -> (r: Self)
        ensures
            r == *self,
    {
        ArtifactEntry { path: self.path.clone(), sha256: self.sha256.clone(), size: self.size }
    }
}

fn copy_artifacts(v: &Vec<ArtifactEntry>) -> (c: Vec<ArtifactEntry>)
    ensures
        c@ == v@,
{
    let mut out: Vec<ArtifactEntry> = Vec::new();
    let mut i: usize = 0;
    while i < v.len()
        invariant
            i <= v.len(),
            out@ == v@.take(i as int),
        decreases v.len() - i,
    {
        out.push(v[i].clone());
        assert(v@.take(i + 1) == v@.take(i as int).push(v@[i as int]));
        i = i + 1;
    }
    assert(v@.take(v.len() as int) == v@);
    out
}

/// Two manifests hold the same values (a `Vec` is compared by its contents).
pub open spec fn same_manifest(a: Manifest, b: Manifest) -> bool {
    &&& a.repository == b.repository
    &&& a.baseline == b.baseline
    &&& a.generated_at == b.generated_at
    &&& a.artifacts@ == b.artifacts@
    &&& a.manifest_hash == b.manifest_hash
}

impl Clone for Manifest {
    fn clone(&self) -> (r: Self)
        ensures
            same_manifest(r, *self),
    {
        Manifest {
            repository: self.repository.clone(),
            baseline: self.baseline.clone(),
            generated_at: self.generated_at,
            artifacts: copy_artifacts(&self.artifacts),
            manifest_hash: self.manifest_hash.clone(),
        }
    }
}

/// The text that a ticket signature hashes: the seed, the manifest hash, the
/// baseline commit and the baseline tag, the last three each after `"||"`
/// but the first.
pub open spec fn signature_payload(manifest_hash: Seq<char>, commit: Seq<char>, tag: Seq<char>) -> Seq<char> {
    AUDIT_TICKET_SEED@ + manifest_hash + "||"@ + commit + "||"@ + tag
}

/// The signature of a ticket over a manifest hash and a baseline.
pub open spec fn ticket_signature_spec(manifest_hash: Seq<char>, commit: Seq<char>, tag: Seq<char>) -> Seq<char> {
    sha256_hex_spec(signature_payload(manifest_hash, commit, tag))
}

/// Signs a manifest hash together with the baseline it claims: SHA-256, in lower-case
/// hex, of the seed, the hash, `||`, the commit, `||` and the tag.
pub fn compute_ticket_signature(manifest_hash: &str, baseline_commit: &str, baseline_tag: &str) -> (s: String)
    ensures
        s@ == ticket_signature_spec(manifest_hash@, baseline_commit@, baseline_tag@),
{
    let mut payload = String::new();
    push_str(&mut payload, AUDIT_TICKET_SEED);
    push_str(&mut payload, manifest_hash);
    push_str(&mut payload, "||");
    push_str(&mut payload, baseline_commit);
    push_str(&mut payload, "||");
    push_str(&mut payload, baseline_tag);
    sha256_hex(payload.as_str())
}

/// Wraps a manifest into a signed ticket of version `1.0`.
pub fn create_audit_ticket(manifest: &Manifest, summary: String) -> (r: Result<AuditTicket, String>)
    ensures
        r matches Ok(t) && t.ticket_version@ == "1.0"@ && same_manifest(t.manifest, *manifest) && t.summary == summary
            && t.ticket_signature@ == ticket_signature_spec(
            manifest.manifest_hash@,
            manifest.baseline.commit@,
            manifest.baseline.tag@,
        ),
{
    let ticket_signature = compute_ticket_signature(
        manifest.manifest_hash.as_str(),
        manifest.baseline.commit.as_str(),
        manifest.baseline.tag.as_str(),
    );
    Ok(AuditTicket { ticket_version: "1.0".to_string(), manifest: manifest.clone(), ticket_signature, summary })
}

/// The hash that seals a manifest, given the JSON text of the manifest with its
/// `manifest_hash` field empty: SHA-256 of that text, in lower-case hex.
pub fn compute_manifest_hash(blank_hash_payload: &str) -> (h: String)
    ensures
        h@ == sha256_hex_spec(blank_hash_payload@),
{
    sha256_hex(blank_hash_payload)
}

/// The error text of a manifest whose seal does not match.
pub open spec fn hash_mismatch_message(expected: Seq<char>, actual: Seq<char>) -> Seq<char> {
    "expected="@ + expected + ", actual="@ + actual
}

/// Checks a manifest's seal against the JSON text of the manifest with its hash
/// field empty: `Ok` exactly when the seal is the hash of that text.
pub fn verify_manifest_hash(manifest: &Manifest, blank_hash_payload: &str) -> (r: Result<(), String>)
    ensures
        r is Ok <==> sha256_hex_spec(blank_hash_payload@) == manifest.manifest_hash@,
        r matches Err(e) ==> e@ == hash_mismatch_message(manifest.manifest_hash@, sha256_hex_spec(blank_hash_payload@)),
{
    let actual = compute_manifest_hash(blank_hash_payload);
    if !string_eq_str(&actual, manifest.manifest_hash.as_str()) {
        let mut e = String::new();
        push_str(&mut e, "expected=");
        push_str(&mut e, manifest.manifest_hash.as_str());
        push_str(&mut e, ", actual=");
        push_str(&mut e, actual.as_str());
        Err(e)
    } else {
        Ok(())
    }
}

/// What was found on disk for one manifest entry.
#[derive(Debug)]
pub enum FileObservation {
    /// No file at the entry's path.
    Missing,
    /// The file's SHA-256 digest in lower-case hex.
    Digest(String),
    /// The file exists but could not be read; the error text.
    Unreadable(String),
}

/// The paths of the entries whose file is missing, in manifest order.
pub open spec fn missing_paths(arts: Seq<ArtifactEntry>, obs: Seq<FileObservation>) -> Seq<Seq<char>>
    decreases arts.len(),
{
    if arts.len() == 0 || obs.len() == 0 {
        Seq::empty()
    } else {
        let rest = missing_paths(arts.drop_last(), obs.drop_last());
        match obs.last() {
            FileObservation::Missing => rest.push(arts.last().path@),
            _ => rest,
        }
    }
}

/// The entries whose file differs from the manifest or could not be read, one
/// message each, in manifest order.
pub open spec fn digest_mismatches(arts: Seq<ArtifactEntry>, obs: Seq<FileObservation>) -> Seq<Seq<char>>
    decreases arts.len(),
{
    if arts.len() == 0 || obs.len() == 0 {
        Seq::empty()
    } else {
        let rest = digest_mismatches(arts.drop_last(), obs.drop_last());
        let a = arts.last();
        match obs.last() {
            FileObservation::Missing => rest,
            FileObservation::Digest(found) => if found@ != a.sha256@ {
                rest.push(a.path@ + ": expected "@ + a.sha256@ + ", actual "@ + found@)
            } else {
                rest
            },
            FileObservation::Unreadable(err) => rest.push(a.path@ + ": hash error "@ + err@),
        }
    }
}

/// Views of a vector of strings.
pub open spec fn string_views(v: Seq<String>) -> Seq<Seq<char>> {
    v.map_values(|s: String| s@)
}

/// Compares each manifest entry with what was found at its path: returns the paths
/// of the missing files and one message for each file whose digest differs or that
/// could not be read, both in manifest order. `observations[i]` is what was found for
/// `manifest.artifacts[i]`.
pub fn verify_manifest_entries(manifest: &Manifest, observations: &Vec<FileObservation>) -> (r: (Vec<String>, Vec<String>))
    requires
        observations.len() == manifest.artifacts.len(),
    ensures
        string_views(r.0@) == missing_paths(manifest.artifacts@, observations@),
        string_views(r.1@) == digest_mismatches(manifest.artifacts@, observations@),
{
    let mut missing: Vec<String> = Vec::new();
    let mut mismatches: Vec<String> = Vec::new();
    let mut i: usize = 0;
    while i < manifest.artifacts.len()
        invariant
            i <= manifest.artifacts.len(),
            observations.len() == manifest.artifacts.len(),
            string_views(missing@) == missing_paths(manifest.artifacts@.take(i as int), observations@.take(i as int)),
            string_views(mismatches@) == digest_mismatches(manifest.artifacts@.take(i as int), observations@.take(i as int)),
        decreases manifest.artifacts.len() - i,
    {
        let entry = &manifest.artifacts[i];
        let ghost arts_next = manifest.artifacts@.take(i + 1);
        let ghost obs_next = observations@.take(i + 1);
        assert(arts_next.drop_last() == manifest.artifacts@.take(i as int));
        assert(obs_next.drop_last() == observations@.take(i as int));
        assert(arts_next.last() == *entry);
        assert(obs_next.last() == observations@[i as int]);
        let ghost m0 = missing@;
        let ghost h0 = mismatches@;
        match &observations[i] {
            FileObservation::Missing => {
                missing.push(entry.path.clone());
                assert(string_views(missing@) == string_views(m0).push(entry.path@));
            },
            FileObservation::Digest(found) => {
                if !string_eq_str(found, entry.sha256.as_str()) {
                    let mut m = entry.path.clone();
                    push_str(&mut m, ": expected ");
                    push_str(&mut m, entry.sha256.as_str());
                    push_str(&mut m, ", actual ");
                    push_str(&mut m, found.as_str());
                    mismatches.push(m);
                    assert(string_views(mismatches@) == string_views(h0).push(m@));
                }
            },
            FileObservation::Unreadable(err) => {
                let mut m = entry.path.clone();
                push_str(&mut m, ": hash error ");
                push_str(&mut m, err.as_str());
                mismatches.push(m);
                assert(string_views(mismatches@) == string_views(h0).push(m@));
            },
        }
        i = i + 1;
    }
    assert(manifest.artifacts@.take(i as int) == manifest.artifacts@);
    assert(observations@.take(i as int) == observations@);
    (missing, mismatches)
}

/// The detail line of a manifest whose seal does not match its text, or whose text
/// could not be produced (none when the seal matches).
pub open spec fn hash_details(m: Manifest, payload: Result<Seq<char>, Seq<char>>) -> Seq<Seq<char>> {
    match payload {
        Ok(p) => if sha256_hex_spec(p) != m.manifest_hash@ {
            seq!["Manifest hash mismatch: "@ + hash_mismatch_message(m.manifest_hash@, sha256_hex_spec(p))]
        } else {
            Seq::empty()
        },
        Err(e) => seq!["Manifest hash mismatch: "@ + e],
    }
}

/// Whether a manifest's seal fails: its text could not be produced, or its hash is
/// not the seal.
pub open spec fn seal_fails(m: Manifest, payload: Result<Seq<char>, Seq<char>>) -> bool {
    match payload {
        Ok(p) => sha256_hex_spec(p) != m.manifest_hash@,
        Err(_) => true,
    }
}

/// A text, or the error that stopped it, as plain values.
pub open spec fn payload_view(r: Result<String, String>) -> Result<Seq<char>, Seq<char>> {
    match r {
        Ok(p) => Ok(p@),
        Err(e) => Err(e@),
    }
}

/// Whether a ticket carries the signature of its own manifest hash and baseline.
pub open spec fn signature_valid(t: AuditTicket) -> bool {
    t.ticket_signature@ == ticket_signature_spec(t.manifest.manifest_hash@, t.manifest.baseline.commit@, t.manifest.baseline.tag@)
}

/// The detail lines about the repository as it is now, against the ticket's baseline.
pub open spec fn repository_details(repo: Result<RepositoryInfo, String>, baseline: BaselineInfo) -> Seq<Seq<char>> {
    match repo {
        Ok(cur) => {
            let commit_lines = if cur.commit@ != baseline.commit@ {
                seq!["Repository commit mismatch: repo="@ + cur.commit@ + ", ticket="@ + baseline.commit@]
            } else {
                Seq::empty()
            };
            let tag_lines = match cur.tag {
                Some(t) => if t@ != baseline.tag@ {
                    seq!["Repository tag mismatch: repo="@ + t@ + ", ticket="@ + baseline.tag@]
                } else {
                    Seq::empty()
                },
                None => seq!["No git tag found for current HEAD"@],
            };
            commit_lines + tag_lines
        },
        Err(e) => seq!["Unable to read repository identity: "@ + e@],
    }
}

/// Whether the repository's commit differs from the baseline's (a failure).
pub open spec fn repository_fails(repo: Result<RepositoryInfo, String>, baseline: BaselineInfo) -> bool {
    repo matches Ok(cur) && cur.commit@ != baseline.commit@
}

/// Whether the repository's tag cannot be confirmed (a condition, not a failure).
pub open spec fn repository_conditions(repo: Result<RepositoryInfo, String>, baseline: BaselineInfo) -> bool {
    match repo {
        Ok(cur) => match cur.tag {
            Some(t) => t@ != baseline.tag@,
            None => true,
        },
        Err(_) => true,
    }
}

/// Every detail line of a ticket check, before the line that reports success.
pub open spec fn raw_details(
    t: AuditTicket,
    payload: Result<Seq<char>, Seq<char>>,
    repo: Result<RepositoryInfo, String>,
    obs: Seq<FileObservation>,
) -> Seq<Seq<char>> {
    let m = t.manifest;
    hash_details(m, payload)
        + (if !signature_valid(t) { seq!["Ticket signature invalid"@] } else { Seq::empty() })
        + repository_details(repo, m.baseline)
        + (if missing_paths(m.artifacts@, obs).len() > 0 {
            seq!["Some files from the manifest are missing in the repository"@]
        } else {
            Seq::empty()
        })
        + (if digest_mismatches(m.artifacts@, obs).len() > 0 {
            seq!["Some file hashes do not match the manifest"@]
        } else {
            Seq::empty()
        })
}

/// The detail lines of a ticket check: those found, or one line reporting success.
pub open spec fn report_details(
    t: AuditTicket,
    payload: Result<Seq<char>, Seq<char>>,
    repo: Result<RepositoryInfo, String>,
    obs: Seq<FileObservation>,
) -> Seq<Seq<char>> {
    let d = raw_details(t, payload, repo, obs);
    if d.len() == 0 {
        seq!["Audit ticket verification succeeded"@]
    } else {
        d
    }
}

/// Whether a ticket check fails: a broken seal or signature, another commit, a
/// missing file or a file that differs.
pub open spec fn check_fails(
    t: AuditTicket,
    payload: Result<Seq<char>, Seq<char>>,
    repo: Result<RepositoryInfo, String>,
    obs: Seq<FileObservation>,
) -> bool {
    ||| seal_fails(t.manifest, payload)
    ||| !signature_valid(t)
    ||| repository_fails(repo, t.manifest.baseline)
    ||| missing_paths(t.manifest.artifacts@, obs).len() > 0
    ||| digest_mismatches(t.manifest.artifacts@, obs).len() > 0
}

/// The outcome of a ticket check.
pub open spec fn report_outcome(
    t: AuditTicket,
    payload: Result<Seq<char>, Seq<char>>,
    repo: Result<RepositoryInfo, String>,
    obs: Seq<FileObservation>,
) -> Seq<char> {
    if check_fails(t, payload, repo, obs) {
        "FAIL"@
    } else if repository_conditions(repo, t.manifest.baseline) {
        "PASS WITH CONDITIONS"@
    } else {
        "PASS"@
    }
}

/// A repository at another commit than the ticket's baseline fails the check, and the
/// report names both commits, whatever else holds.
pub proof fn lemma_commit_mismatch_fails(
    t: AuditTicket,
    payload: Result<Seq<char>, Seq<char>>,
    repo: Result<RepositoryInfo, String>,
    obs: Seq<FileObservation>,
)
    requires
        repo matches Ok(cur) && cur.commit@ != t.manifest.baseline.commit@,
    ensures
        report_outcome(t, payload, repo, obs) == "FAIL"@,
        repo matches Ok(cur) && report_details(t, payload, repo, obs).contains(
            "Repository commit mismatch: repo="@ + cur.commit@ + ", ticket="@ + t.manifest.baseline.commit@,
        ),
{
    let cur = repo->Ok_0;
    let line = "Repository commit mismatch: repo="@ + cur.commit@ + ", ticket="@ + t.manifest.baseline.commit@;
    let m = t.manifest;
    let a = hash_details(m, payload) + (if !signature_valid(t) { seq!["Ticket signature invalid"@] } else { Seq::<Seq<char>>::empty() });
    let r = repository_details(repo, m.baseline);
    assert(r[0] == line);
    let d = raw_details(t, payload, repo, obs);
    let rest1 = if missing_paths(m.artifacts@, obs).len() > 0 {
        seq!["Some files from the manifest are missing in the repository"@]
    } else {
        Seq::<Seq<char>>::empty()
    };
    let rest2 = if digest_mismatches(m.artifacts@, obs).len() > 0 {
        seq!["Some file hashes do not match the manifest"@]
    } else {
        Seq::<Seq<char>>::empty()
    };
    assert(d == a + r + rest1 + rest2);
    assert(d[a.len() as int] == line);
    assert(d.len() > 0);
    assert(report_details(t, payload, repo, obs) == d);
}

/// Where every file is found with the digest its entry records, no path is missing
/// and no digest differs.
proof fn lemma_matching_files(arts: Seq<ArtifactEntry>, obs: Seq<FileObservation>)
    requires
        obs.len() == arts.len(),
        forall|i: int| 0 <= i < obs.len() ==> ((#[trigger] obs[i]) matches FileObservation::Digest(d) && d@ == arts[i].sha256@),
    ensures
        missing_paths(arts, obs).len() == 0,
        digest_mismatches(arts, obs).len() == 0,
    decreases arts.len(),
{
    if arts.len() > 0 {
        let (a2, o2) = (arts.drop_last(), obs.drop_last());
        assert forall|i: int| 0 <= i < o2.len() implies ((#[trigger] o2[i]) matches FileObservation::Digest(d) && d@ == a2[i].sha256@) by {
            assert(o2[i] == obs[i]);
        }
        lemma_matching_files(a2, o2);
        assert(obs[obs.len() - 1] == obs.last());
    }
}

/// A ticket whose seal matches its payload, whose signature is its own, checked against
/// a repository at the ticket's commit and tag where every file is found with the
/// digest its entry records, passes.
pub proof fn lemma_untampered_ticket_passes(
    t: AuditTicket,
    payload: Result<Seq<char>, Seq<char>>,
    repo: RepositoryInfo,
    obs: Seq<FileObservation>,
)
    requires
        payload matches Ok(p) && sha256_hex_spec(p) == t.manifest.manifest_hash@,
        signature_valid(t),
        repo.commit@ == t.manifest.baseline.commit@,
        repo.tag matches Some(tag) && tag@ == t.manifest.baseline.tag@,
        obs.len() == t.manifest.artifacts@.len(),
        forall|i: int| 0 <= i < obs.len() ==> ((#[trigger] obs[i]) matches FileObservation::Digest(d) && d@ == t.manifest.artifacts@[i].sha256@),
    ensures
        report_outcome(t, payload, Ok(repo), obs) == "PASS"@,
        report_details(t, payload, Ok(repo), obs) == seq!["Audit ticket verification succeeded"@],
{
    lemma_matching_files(t.manifest.artifacts@, obs);
    assert(raw_details(t, payload, Ok(repo), obs) =~= Seq::<Seq<char>>::empty());
}

/// A file found with a digest other than the one its entry records makes the check
/// fail, whatever else holds.
pub proof fn lemma_changed_file_fails(
    t: AuditTicket,
    payload: Result<Seq<char>, Seq<char>>,
    repo: Result<RepositoryInfo, String>,
    obs: Seq<FileObservation>,
    k: int,
)
    requires
        obs.len() == t.manifest.artifacts@.len(),
        0 <= k < obs.len(),
        obs[k] matches FileObservation::Digest(d) && d@ != t.manifest.artifacts@[k].sha256@,
    ensures
        report_outcome(t, payload, repo, obs) == "FAIL"@,
{
    lemma_mismatch_reported(t.manifest.artifacts@, obs, k);
}

proof fn lemma_mismatch_reported(arts: Seq<ArtifactEntry>, obs: Seq<FileObservation>, k: int)
    requires
        obs.len() == arts.len(),
        0 <= k < obs.len(),
        obs[k] matches FileObservation::Digest(d) && d@ != arts[k].sha256@,
    ensures
        digest_mismatches(arts, obs).len() > 0,
    decreases arts.len(),
{
    if k < arts.len() - 1 {
        let (a2, o2) = (arts.drop_last(), obs.drop_last());
        assert(o2[k] == obs[k]);
        assert(a2[k] == arts[k]);
        lemma_mismatch_reported(a2, o2, k);
        lemma_mismatches_grow(arts, obs);
    }
}

proof fn lemma_mismatches_grow(arts: Seq<ArtifactEntry>, obs: Seq<FileObservation>)
    requires
        arts.len() > 0,
        obs.len() > 0,
    ensures
        digest_mismatches(arts, obs).len() >= digest_mismatches(arts.drop_last(), obs.drop_last()).len(),
{
}

fn push_repository_details(details: &mut Vec<String>, repo: &Result<RepositoryInfo, String>, baseline: &BaselineInfo)
    ensures
        string_views(final(details)@) == string_views(old(details)@) + repository_details(*repo, *baseline),
{
    let ghost d0 = string_views(details@);
    match repo {
        Ok(cur) => {
            if !string_eq_str(&cur.commit, baseline.commit.as_str()) {
                let mut m = "Repository commit mismatch: repo=".to_string();
                push_str(&mut m, cur.commit.as_str());
                push_str(&mut m, ", ticket=");
                push_str(&mut m, baseline.commit.as_str());
                details.push(m);
            }
            let ghost d1 = string_views(details@);
            assert(d1 == d0 + (if cur.commit@ != baseline.commit@ {
                seq!["Repository commit mismatch: repo="@ + cur.commit@ + ", ticket="@ + baseline.commit@]
            } else {
                Seq::<Seq<char>>::empty()
            }));
            match &cur.tag {
                Some(t) => {
                    if !string_eq_str(t, baseline.tag.as_str()) {
                        let mut m = "Repository tag mismatch: repo=".to_string();
                        push_str(&mut m, t.as_str());
                        push_str(&mut m, ", ticket=");
                        push_str(&mut m, baseline.tag.as_str());
                        details.push(m);
                    }
                },
                None => {
                    details.push("No git tag found for current HEAD".to_string());
                },
            }
        },
        Err(e) => {
            let mut m = "Unable to read repository identity: ".to_string();
            push_str(&mut m, e.as_str());
            details.push(m);
        },
    }
}

/// Checks an audit ticket against the repository as it is now: the manifest's seal
/// against `blank_hash_payload` (the JSON text of the manifest with its hash field
/// empty, or why it could not be produced, which fails the seal), the ticket's
/// signature, the repository's commit and tag as read by the caller, and
/// `observations[i]`, what was found at the path of the i-th manifest entry. The outcome is `FAIL` on any failure, else `PASS WITH CONDITIONS` when the
/// tag could not be confirmed, else `PASS`.
pub fn verify_ticket(
    ticket: &AuditTicket,
    blank_hash_payload: &Result<String, String>,
    repository: &Result<RepositoryInfo, String>,
    observations: &Vec<FileObservation>,
) -> (report: VerificationReport)
    requires
        observations.len() == ticket.manifest.artifacts.len(),
    ensures
        report.outcome@ == report_outcome(*ticket, payload_view(*blank_hash_payload), *repository, observations@),
        string_views(report.details@) == report_details(*ticket, payload_view(*blank_hash_payload), *repository, observations@),
        report.baseline_commit == ticket.manifest.baseline.commit,
        report.baseline_tag == ticket.manifest.baseline.tag,
        string_views(report.mismatches@) == digest_mismatches(ticket.manifest.artifacts@, observations@),
        string_views(report.missing_files@) == missing_paths(ticket.manifest.artifacts@, observations@),
        repository matches Ok(cur) ==> (cur.commit@ != ticket.manifest.baseline.commit@ ==> {
            &&& report.outcome@ == "FAIL"@
            &&& string_views(report.details@).contains(
                "Repository commit mismatch: repo="@ + cur.commit@ + ", ticket="@ + ticket.manifest.baseline.commit@,
            )
        }),
{
    proof {
        if repository is Ok && repository->Ok_0.commit@ != ticket.manifest.baseline.commit@ {
            lemma_commit_mismatch_fails(*ticket, payload_view(*blank_hash_payload), *repository, observations@);
        }
    }
    let m = &ticket.manifest;
    let ghost payload = payload_view(*blank_hash_payload);
    let mut details: Vec<String> = Vec::new();
    let mut failed = false;

    let seal = match blank_hash_payload {
        Ok(p) => verify_manifest_hash(m, p.as_str()),
        Err(e) => Err(e.clone()),
    };
    match seal {
        Err(e) => {
            let mut line = "Manifest hash mismatch: ".to_string();
            push_str(&mut line, e.as_str());
            details.push(line);
            failed = true;
        },
        Ok(()) => {},
    }
    assert(string_views(details@) == hash_details(*m, payload));

    let expected_signature = compute_ticket_signature(
        m.manifest_hash.as_str(),
        m.baseline.commit.as_str(),
        m.baseline.tag.as_str(),
    );
    let ghost d1 = string_views(details@);
    if !string_eq_str(&ticket.ticket_signature, expected_signature.as_str()) {
        details.push("Ticket signature invalid".to_string());
        failed = true;
    }
    assert(string_views(details@) == d1 + (if !signature_valid(*ticket) {
        seq!["Ticket signature invalid"@]
    } else {
        Seq::<Seq<char>>::empty()
    }));

    push_repository_details(&mut details, repository, &m.baseline);
    let mut conditions = false;
    match repository {
        Ok(cur) => {
            if !string_eq_str(&cur.commit, m.baseline.commit.as_str()) {
                failed = true;
            }
            match &cur.tag {
                Some(t) => {
                    if !string_eq_str(t, m.baseline.tag.as_str()) {
                        conditions = true;
                    }
                },
                None => {
                    conditions = true;
                },
            }
        },
        Err(_) => {
            conditions = true;
        },
    }

    let (missing, hashes) = verify_manifest_entries(m, observations);
    let ghost d3 = string_views(details@);
    if missing.len() > 0 {
        details.push("Some files from the manifest are missing in the repository".to_string());
        failed = true;
    }
    let ghost d4 = string_views(details@);
    assert(d4 == d3 + (if missing_paths(m.artifacts@, observations@).len() > 0 {
        seq!["Some files from the manifest are missing in the repository"@]
    } else {
        Seq::<Seq<char>>::empty()
    }));
    if hashes.len() > 0 {
        details.push("Some file hashes do not match the manifest".to_string());
        failed = true;
    }
    assert(string_views(details@) == d4 + (if digest_mismatches(m.artifacts@, observations@).len() > 0 {
        seq!["Some file hashes do not match the manifest"@]
    } else {
        Seq::<Seq<char>>::empty()
    }));
    assert(string_views(details@) == raw_details(*ticket, payload, *repository, observations@));
    assert(failed == check_fails(*ticket, payload, *repository, observations@));

    if details.len() == 0 {
        details.push("Audit ticket verification succeeded".to_string());
        assert(string_views(details@) == seq!["Audit ticket verification succeeded"@]);
    }

    let outcome = if failed {
        "FAIL".to_string()
    } else if conditions {
        "PASS WITH CONDITIONS".to_string()
    } else {
        "PASS".to_string()
    };

    VerificationReport {
        outcome,
        details,
        baseline_commit: m.baseline.commit.clone(),
        baseline_tag: m.baseline.tag.clone(),
        mismatches: hashes,
        missing_files: missing,
    }
}

/// A clock reading (nanoseconds since the Unix epoch, or the clock's error) in whole
/// seconds; it fails, with the clock's error text, exactly when the reading is an
/// error.
pub fn unix_seconds_from_nanos(reading: Result<u128, String>) -> (r: Result<u64, String>)
    requires
        reading matches Ok(n) ==> n <= DURATION_MAX_NANOS,
    ensures
        r is Err <==> reading is Err,
        r matches Ok(s) ==> reading matches Ok(n) && s == n / 1_000_000_000,
        r matches Err(e) ==> reading matches Err(f) && e@ == f@,
{
    match reading {
        Ok(n) => {
            let secs = n / 1_000_000_000;
            assert(secs <= u64::MAX) by {
                assert(n <= DURATION_MAX_NANOS);
            }
            Ok(secs as u64)
        },
        Err(e) => Err(e),
    }
}

/// The current time in whole seconds since the Unix epoch: the host clock read once
/// and passed through `unix_seconds_from_nanos`. It fails, with std's error text,
/// only when the host clock reads before the epoch; both its value and that text come
/// from the host clock and std, so nothing of them is stated here.
pub fn current_unix_timestamp() -> (r: Result<u64, String>) {
    unix_seconds_from_nanos(unix_time_nanos())
}

/// Entries whose path is `p`.
pub open spec fn path_is(p: Seq<char>) -> spec_fn(ArtifactEntry) -> bool {
    |a: ArtifactEntry| a.path@ == p
}

/// Non-decreasing by path.
pub open spec fn sorted_by_path(s: Seq<ArtifactEntry>) -> bool {
    forall|i: int, j: int| 0 <= i < j < s.len() ==> !chars_lt((#[trigger] s[j]).path@, (#[trigger] s[i]).path@)
}

/// `t` holds, for every path, the same entries in the same relative order as `s`.
pub open spec fn same_path_groups(t: Seq<ArtifactEntry>, s: Seq<ArtifactEntry>) -> bool {
    forall|p: Seq<char>| #[trigger] t.filter(path_is(p)) == s.filter(path_is(p))
}

fn path_insertion_point(out: &Vec<ArtifactEntry>, x: &ArtifactEntry) -> (p: usize)
    requires
        sorted_by_path(out@),
    ensures
        p <= out@.len(),
        forall|j: int| 0 <= j < p ==> !chars_lt(x.path@, (#[trigger] out@[j]).path@),
        forall|j: int| p <= j < out@.len() ==> chars_lt(x.path@, (#[trigger] out@[j]).path@),
{
    proof {
        lemma_chars_lt_facts();
    }
    let xp = chars_of(x.path.as_str());
    let mut p: usize = 0;
    while p < out.len()
        invariant
            sorted_by_path(out@),
            xp@ == x.path@,
            p <= out@.len(),
            forall|j: int| 0 <= j < p ==> !chars_lt(x.path@, (#[trigger] out@[j]).path@),
        decreases out.len() - p,
    {
        let op = chars_of(out[p].path.as_str());
        if compare_chars(xp.as_slice(), op.as_slice()) == TextOrder::Less {
            proof {
                lemma_chars_lt_facts();
            }
            assert forall|j: int| p <= j < out@.len() implies chars_lt(x.path@, (#[trigger] out@[j]).path@) by {
                if j > p {
                    assert(!chars_lt(out@[j].path@, out@[p as int].path@));
                }
            }
            return p;
        }
        p = p + 1;
    }
    p
}

/// Sorts entries by path (`slice::sort_by` on the path, which is stable: entries with
/// the same path keep their order).
pub fn sort_artifacts_by_path(artifacts: Vec<ArtifactEntry>) -> (out: Vec<ArtifactEntry>)
    ensures
        sorted_by_path(out@),
        same_path_groups(out@, artifacts@),
{
    let mut input = artifacts;
    let ghost orig = input@;
    let mut out: Vec<ArtifactEntry> = Vec::new();
    let ghost mut i: int = 0;
    proof {
        assert(orig.skip(0) == orig);
        assert forall|k: Seq<char>| #[trigger] out@.filter(path_is(k)) == orig.take(0).filter(path_is(k)) by {
            reveal(Seq::filter);
            assert(orig.take(0).len() == 0);
        }
    }
    while input.len() > 0
        invariant
            0 <= i <= orig.len(),
            input@ == orig.skip(i),
            sorted_by_path(out@),
            same_path_groups(out@, orig.take(i)),
        decreases input.len(),
    {
        proof {
            lemma_chars_lt_facts();
        }
        let x = input.remove(0);
        let p = path_insertion_point(&out, &x);
        let ghost before = out@;
        out.insert(p, x);
        proof {
            assert(x == orig[i]);
            assert(orig.take(i + 1) == orig.take(i).push(x));
            assert(orig.skip(i + 1) == orig.skip(i).drop_first());
            let head = before.take(p as int);
            let tail = before.skip(p as int);
            assert(before == head + tail);
            assert(out@ == head + seq![x] + tail);
            assert forall|k: Seq<char>| #[trigger] out@.filter(path_is(k)) == orig.take(i + 1).filter(path_is(k)) by {
                let pred = path_is(k);
                Seq::filter_distributes_over_add(head, tail, pred);
                Seq::filter_distributes_over_add(head + seq![x], tail, pred);
                Seq::filter_distributes_over_add(head, seq![x], pred);
                orig.take(i).lemma_filter_push(x, pred);
                Seq::<ArtifactEntry>::empty().lemma_filter_push(x, pred);
                assert(seq![x] == Seq::<ArtifactEntry>::empty().push(x));
                reveal(Seq::filter);
                if x.path@ == k {
                    assert forall|j: int| 0 <= j < tail.len() implies !#[trigger] pred(tail[j]) by {
                        assert(tail[j] == before[p + j]);
                    }
                    lemma_filter_all_false(tail, pred);
                }
            }
            assert(sorted_by_path(out@)) by {
                assert forall|a: int, b: int| 0 <= a < b < out@.len() implies !chars_lt(
                    (#[trigger] out@[b]).path@,
                    (#[trigger] out@[a]).path@,
                ) by {
                    if b < p {
                        assert(out@[a] == before[a] && out@[b] == before[b]);
                    } else if b == p {
                        assert(out@[a] == before[a]);
                    } else if a == p {
                        assert(out@[b] == before[b - 1]);
                    } else if a < p {
                        assert(out@[a] == before[a] && out@[b] == before[b - 1]);
                    } else {
                        assert(out@[a] == before[a - 1] && out@[b] == before[b - 1]);
                    }
                }
            }
            i = i + 1;
        }
    }
    proof {
        assert(orig.take(i) == orig);
    }
    out
}

/// Builds an unsealed manifest: the entries sorted by path, the current time, an empty
/// hash. It fails only when the clock does (`current_unix_timestamp`).
pub fn generate_manifest(
    repository: RepositoryInfo,
    baseline_commit: String,
    baseline_tag: String,
    artifacts: Vec<ArtifactEntry>,
) -> (r: Result<Manifest, String>)
    ensures
        r matches Ok(m) ==> {
            &&& m.repository == repository
            &&& m.baseline.commit == baseline_commit
            &&& m.baseline.tag == baseline_tag
            &&& sorted_by_path(m.artifacts@)
            &&& same_path_groups(m.artifacts@, artifacts@)
            &&& m.manifest_hash@ == Seq::<char>::empty()
        },
{
    let artifacts = sort_artifacts_by_path(artifacts);
    let generated_at = match current_unix_timestamp() {
        Ok(t) => t,
        Err(e) => {
            return Err(e);
        },
    };
    Ok(Manifest {
        repository,
        baseline: BaselineInfo { commit: baseline_commit, tag: baseline_tag },
        generated_at,
        artifacts,
        manifest_hash: String::new(),
    })
}

/// Seals a manifest with the hash of its JSON text taken with the hash field empty.
pub fn seal_manifest(manifest: &mut Manifest, blank_hash_payload: &str)
    ensures
        final(manifest).manifest_hash@ == sha256_hex_spec(blank_hash_payload@),
        final(manifest).repository == old(manifest).repository,
        final(manifest).baseline == old(manifest).baseline,
        final(manifest).generated_at == old(manifest).generated_at,
        final(manifest).artifacts@ == old(manifest).artifacts@,
{
    manifest.manifest_hash = compute_manifest_hash(blank_hash_payload);
}

/// A manifest sealed with a payload (its hash set to that payload's hash, every other
/// field kept, as `seal_manifest` does) passes the seal check on the same payload:
/// `verify_manifest_hash` returns `Ok` and a ticket check reports no seal line.
pub proof fn lemma_sealed_manifest_verifies(before: Manifest, after: Manifest, payload: Seq<char>)
    requires
        after.manifest_hash@ == sha256_hex_spec(payload),
        after.repository == before.repository,
        after.baseline == before.baseline,
        after.generated_at == before.generated_at,
        after.artifacts@ == before.artifacts@,
    ensures
        sha256_hex_spec(payload) == after.manifest_hash@,
        !seal_fails(after, Ok(payload)),
        hash_details(after, Ok(payload)) == Seq::<Seq<char>>::empty(),
{
}

/// The directory names that the manifest leaves out.
pub open spec fn excluded_names() -> Seq<Seq<char>> {
    seq![".git"@, "target"@, "node_modules"@, "**/.git"@]
}

/// The directory names that the manifest leaves out, in a fixed order.
pub fn excluded_paths() -> (v: Vec<String>)
    ensures
        string_views(v@) == excluded_names(),
{
    let mut v: Vec<String> = Vec::new();
    v.push(".git".to_string());
    v.push("target".to_string());
    v.push("node_modules".to_string());
    v.push("**/.git".to_string());
    assert(string_views(v@) == excluded_names());
    v
}

/// Whether a path, given by its components, lies under an excluded name.
pub fn is_excluded(components: &Vec<String>, exclusions: &Vec<String>) -> (r: bool)
    ensures
        r == exists|i: int, j: int|
            0 <= i < components.len() && 0 <= j < exclusions.len() && (#[trigger] components@[i])@
                == (#[trigger] exclusions@[j])@,
{
    let mut i: usize = 0;
    while i < components.len()
        invariant
            i <= components.len(),
            forall|a: int, b: int|
                0 <= a < i && 0 <= b < exclusions.len() ==> (#[trigger] components@[a])@ != (#[trigger] exclusions@[b])@,
        decreases components.len() - i,
    {
        let mut j: usize = 0;
        while j < exclusions.len()
            invariant
                i < components.len(),
                j <= exclusions.len(),
                forall|a: int, b: int|
                    0 <= a < i && 0 <= b < exclusions.len() ==> (#[trigger] components@[a])@ != (#[trigger] exclusions@[b])@,
                forall|b: int| 0 <= b < j ==> components@[i as int]@ != (#[trigger] exclusions@[b])@,
            decreases exclusions.len() - j,
        {
            if string_eq_str(&components[i], exclusions[j].as_str()) {
                return true;
            }
            j = j + 1;
        }
        i = i + 1;
    }
    false
}

/// A path with every `\` turned into `/`.
pub open spec fn forward_slashes(p: Seq<char>) -> Seq<char> {
    p.map_values(|c: char| if c == '\\' { '/' } else { c })
}

/// The manifest form of a relative path: `\` separators written as `/`.
pub fn manifest_path(relative: &str) -> (p: String)
    ensures
        p@ == forward_slashes(relative@),
{
    let cs = chars_of(relative);
    let mut out: Vec<char> = Vec::new();
    let mut i: usize = 0;
    while i < cs.len()
        invariant
            i <= cs.len(),
            out@ == forward_slashes(cs@.take(i as int)),
        decreases cs.len() - i,
    {
        let c = cs[i];
        out.push(if c == '\\' { '/' } else { c });
        assert(forward_slashes(cs@.take(i + 1)) == forward_slashes(cs@.take(i as int)).push(if c == '\\' { '/' } else { c }));
        i = i + 1;
    }
    assert(cs@.take(cs.len() as int) == cs@);
    string_from_chars(out.as_slice())
}

/// The tag that `git tag --points-at HEAD` printed: none when the output is blank,
/// else the first line of the trimmed output.
pub open spec fn head_tag(output: Seq<char>) -> Option<Seq<char>> {
    let t = trim(output);
    if t.len() == 0 {
        None
    } else {
        Some(lines_spec(t)[0])
    }
}

/// The repository's identity from what the caller read: the name of its directory
/// (`m_v_r_esprint1` when it has none), the output of `git rev-parse --short HEAD`
/// (whose failure is the error), and the output of `git tag --points-at HEAD` (whose
/// failure means no tag).
pub fn repository_info(
    dir_name: Option<String>,
    commit_output: Result<String, String>,
    tag_output: Result<String, String>,
) -> (r: Result<RepositoryInfo, String>)
    ensures
        commit_output matches Err(e) ==> r == Err::<RepositoryInfo, String>(e),
        commit_output matches Ok(c) ==> r matches Ok(info) && info.commit == c && info.name@ == (match dir_name {
            Some(n) => n@,
            None => "m_v_r_esprint1"@,
        }) && (match tag_output {
            Ok(t) => match head_tag(t@) {
                Some(tag) => info.tag matches Some(it) && it@ == tag,
                None => info.tag is None,
            },
            Err(_) => info.tag is None,
        }),
{
    let name = match dir_name {
        Some(n) => n,
        None => "m_v_r_esprint1".to_string(),
    };
    let commit = match commit_output {
        Ok(c) => c,
        Err(e) => {
            return Err(e);
        },
    };
    let tag = match tag_output {
        Ok(text) => {
            let cs = chars_of(text.as_str());
            let trimmed = trim_chars(cs.as_slice());
            if trimmed.len() == 0 {
                None
            } else {
                let lines = lines_of(trimmed.as_slice());
                assert(views_of(lines@) == lines_spec(trimmed@));
                if lines.len() > 0 {
                    assert(lines@[0]@ == lines_spec(trimmed@)[0]);
                    Some(string_from_chars(lines[0].as_slice()))
                } else {
                    proof {
                        lemma_lines_nonempty(trimmed@);
                    }
                    None
                }
            }
        },
        Err(_) => None,
    };
    Ok(RepositoryInfo { name, commit, tag })
}

proof fn lemma_lines_nonempty(s: Seq<char>)
    requires
        s.len() > 0,
    ensures
        lines_spec(s).len() > 0,
{
    crate::text::lemma_split_nonempty(s, '\n');
    let parts = crate::text::split_spec(s, '\n');
    if s.last() == '\n' {
        lemma_split_two(s);
    }
}

proof fn lemma_split_two(s: Seq<char>)
    requires
        s.len() > 0,
        s.last() == '\n',
    ensures
        crate::text::split_spec(s, '\n').len() >= 2,
{
    crate::text::lemma_split_nonempty(s.drop_last(), '\n');
}

} // verus!
