//! The extraction pipeline on values held in memory: which members of a
//! container become files, which of those hold tar streams, and what is
//! unpacked where, in the order in which the members stand.

use crate::codec::{decode, decoded, gzip_decoded, stream_view};
use crate::container::{
    container_members, container_readable, members_view, read_members, ArchiveMember,
};
use crate::error::{DebError, DebErrorView};
use crate::members::{
    base_name, codec_of, destination_subdir, file_name_of, is_tar_candidate, lemma_base_name,
    resolve_member_name, resolved_name, select_codec, subdir_is_fallback, subdir_of, tar_bearing,
    Destination, SkipReason,
};
use crate::text::occurs_at;
use vstd::prelude::*;
use vstd::string::StringExecFns;

verus! {

/// A member's content, to be written under its resolved name directly in
/// the working directory.
#[derive(Debug, Clone, PartialEq, Eq)]
pub struct ExtractedMemberFile {
    pub name: String,
    pub content: Vec<u8>,
}

impl View for ExtractedMemberFile {
    type V = (Seq<char>, Seq<u8>);

    open spec fn view(&self) -> (Seq<char>, Seq<u8>) {
        (self.name@, self.content@)
    }
}

/// A member that was passed over, with the reason.
#[derive(Debug, Clone, PartialEq, Eq)]
pub struct SkippedMember {
    pub identifier: Vec<u8>,
    pub reason: SkipReason,
}

impl View for SkippedMember {
    type V = (Seq<u8>, SkipReason);

    open spec fn view(&self) -> (Seq<u8>, SkipReason) {
        (self.identifier@, self.reason)
    }
}

/// What the pass over the container's members leaves.
#[derive(Debug, Clone, PartialEq, Eq)]
pub struct Materialization {
    /// The files to write, in member order.
    pub files: Vec<ExtractedMemberFile>,
    /// The members passed over, in member order.
    pub skipped: Vec<SkippedMember>,
}

/// One tar-bearing file's turn: where it goes, and the tar stream to unpack
/// there or the failure that ends the run.
#[derive(Debug, PartialEq, Eq)]
pub struct TarJob {
    /// The name of the file that holds the stream.
    pub source: String,
    /// The subdirectory to create before unpacking.
    pub destination: Destination,
    /// The tar stream, or why there is none.
    pub outcome: Result<Vec<u8>, DebError>,
}

/// An [`TarJob`] as mathematical values.
pub struct TarJobView {
    pub source: Seq<char>,
    pub subdir: Seq<char>,
    pub warn: bool,
    pub outcome: Result<Seq<u8>, DebErrorView>,
}

/// The view of a tar stream or of the failure in its place.
pub open spec fn outcome_view(outcome: Result<Vec<u8>, DebError>) -> Result<
    Seq<u8>,
    DebErrorView,
> {
    match outcome {
        Ok(tar) => Ok(tar@),
        Err(e) => Err(e@),
    }
}

impl View for TarJob {
    type V = TarJobView;

    open spec fn view(&self) -> TarJobView {
        TarJobView {
            source: self.source@,
            subdir: self.destination.subdir@,
            warn: self.destination.warn,
            outcome: outcome_view(self.outcome),
        }
    }
}

/// Everything that unpacking a package asks of the file system, in order:
/// write the files, then take the jobs one by one.
#[derive(Debug, PartialEq, Eq)]
pub struct Unpacking {
    pub files: Vec<ExtractedMemberFile>,
    pub skipped: Vec<SkippedMember>,
    pub jobs: Vec<TarJob>,
}

/// The views of a run of files.
pub open spec fn files_view(files: Seq<ExtractedMemberFile>) -> Seq<(Seq<char>, Seq<u8>)> {
    files.map_values(|f: ExtractedMemberFile| f@)
}

/// The views of a run of skipped members.
pub open spec fn skipped_view(skipped: Seq<SkippedMember>) -> Seq<(Seq<u8>, SkipReason)> {
    skipped.map_values(|s: SkippedMember| s@)
}

/// The views of a run of jobs.
pub open spec fn jobs_view(jobs: Seq<TarJob>) -> Seq<TarJobView> {
    jobs.map_values(|s: TarJob| s@)
}

/// The file that a member becomes, if it is not skipped.
pub open spec fn kept(member: (Seq<u8>, Seq<u8>)) -> Option<(Seq<char>, Seq<u8>)> {
    match resolved_name(member.0) {
        Ok(name) => Some((name, member.1)),
        Err(_) => None,
    }
}

/// The record of a member that is skipped.
pub open spec fn passed_over(member: (Seq<u8>, Seq<u8>)) -> Option<(Seq<u8>, SkipReason)> {
    match resolved_name(member.0) {
        Ok(_) => None,
        Err(reason) => Some((member.0, reason)),
    }
}

/// The files that a run of members becomes, in member order.
pub open spec fn materialized(members: Seq<(Seq<u8>, Seq<u8>)>) -> Seq<(Seq<char>, Seq<u8>)> {
    members.filter_map(|m: (Seq<u8>, Seq<u8>)| kept(m))
}

/// The members of a run that are skipped, in member order.
pub open spec fn skipped_of(members: Seq<(Seq<u8>, Seq<u8>)>) -> Seq<(Seq<u8>, SkipReason)> {
    members.filter_map(|m: (Seq<u8>, Seq<u8>)| passed_over(m))
}

/// What unpacking yields once the decompressor has run: its output, or a
/// failure that names where the stream came from, where it was to go, and
/// the cause.
pub open spec fn outcome_of(
    source: Seq<char>,
    destination: Seq<char>,
    stream: Result<Seq<u8>, Seq<char>>,
) -> Result<Seq<u8>, DebErrorView> {
    match stream {
        Ok(tar) => Ok(tar),
        Err(cause) => Err(DebErrorView::TarUnpack { source, destination, cause }),
    }
}

/// The tar stream held by the file `source`, whose transform is selected by
/// the suffix of its file name, or the failure to obtain it.
pub open spec fn tar_stream_of(source: Seq<char>, destination: Seq<char>, payload: Seq<u8>)
    -> Result<Seq<u8>, DebErrorView> {
    match codec_of(base_name(source)) {
        None => Err(DebErrorView::UnsupportedCompression { source }),
        Some(codec) => outcome_of(source, destination, decoded(codec, payload)),
    }
}

/// The job that a tar-bearing file gives rise to.
pub open spec fn job_of(file: (Seq<char>, Seq<u8>)) -> TarJobView {
    TarJobView {
        source: file.0,
        subdir: subdir_of(base_name(file.0)),
        warn: subdir_is_fallback(base_name(file.0)),
        outcome: tar_stream_of(file.0, subdir_of(base_name(file.0)), file.1),
    }
}

/// Whether a run of jobs ends in a failure.
pub open spec fn aborted(jobs: Seq<TarJobView>) -> bool {
    jobs.len() > 0 && jobs.last().outcome is Err
}

/// The jobs for a run of files: one for each tar-bearing file, in order,
/// up to and including the first that fails. Nothing follows a failure.
pub open spec fn extraction_of(files: Seq<(Seq<char>, Seq<u8>)>) -> Seq<TarJobView>
    decreases files.len(),
{
    if files.len() == 0 {
        Seq::empty()
    } else {
        let before = extraction_of(files.drop_last());
        if aborted(before) || !tar_bearing(files.last().0) {
            before
        } else {
            before.push(job_of(files.last()))
        }
    }
}

/// Every member is either kept as a file or recorded as skipped.
pub proof fn lemma_members_accounted(members: Seq<(Seq<u8>, Seq<u8>)>)
    ensures
        materialized(members).len() + skipped_of(members).len() == members.len(),
    decreases members.len(),
{
    if members.len() > 0 {
        lemma_members_accounted(members.drop_last());
    }
}

/// A member that is skipped leaves no trace among the files: those that
/// stand before it and those that follow it are what they would be
/// without it.
pub proof fn lemma_skipped_member_leaves_no_file(
    before: Seq<(Seq<u8>, Seq<u8>)>,
    member: (Seq<u8>, Seq<u8>),
    after: Seq<(Seq<u8>, Seq<u8>)>,
)
    requires
        resolved_name(member.0) is Err,
    ensures
        materialized(before + seq![member] + after) == materialized(before + after),
    decreases after.len(),
{
    if after.len() == 0 {
        assert(before + seq![member] + after =~= before.push(member));
        assert(before.push(member).drop_last() =~= before);
        assert(before + after =~= before);
    } else {
        let shorter = after.drop_last();
        lemma_skipped_member_leaves_no_file(before, member, shorter);
        assert((before + seq![member] + after).drop_last() =~= before + seq![member] + shorter);
        assert((before + after).drop_last() =~= before + shorter);
    }
}

/// Every file has a name that is not empty, and stems from a member whose
/// identifier resolves to that name.
pub proof fn lemma_files_stem_from_members(members: Seq<(Seq<u8>, Seq<u8>)>, i: int)
    requires
        0 <= i < materialized(members).len(),
    ensures
        materialized(members)[i].0.len() > 0,
        exists|j: int|
            0 <= j < members.len() && #[trigger] kept(members[j]) == Some(materialized(members)[i]),
    decreases members.len(),
{
    let shorter = members.drop_last();
    if i < materialized(shorter).len() {
        lemma_files_stem_from_members(shorter, i);
        let j = choose|j: int|
            0 <= j < shorter.len() && #[trigger] kept(shorter[j]) == Some(materialized(shorter)[i]);
        assert(kept(members[j]) == Some(materialized(members)[i]));
    } else {
        assert(kept(members[members.len() - 1]) == Some(materialized(members)[i]));
    }
}

/// Where no member is skipped, the files are the members one for one,
/// each under its resolved name.
pub proof fn lemma_all_members_kept(members: Seq<(Seq<u8>, Seq<u8>)>)
    requires
        forall|i: int| 0 <= i < members.len() ==> resolved_name(#[trigger] members[i].0) is Ok,
    ensures
        materialized(members).len() == members.len(),
        forall|i: int|
            0 <= i < members.len() ==> #[trigger] materialized(members)[i] == (
                resolved_name(members[i].0)->Ok_0,
                members[i].1,
            ),
    decreases members.len(),
{
    if members.len() > 0 {
        let shorter = members.drop_last();
        assert forall|i: int| 0 <= i < shorter.len() implies resolved_name(
            #[trigger] shorter[i].0,
        ) is Ok by {
            assert(shorter[i] == members[i]);
        }
        lemma_all_members_kept(shorter);
        assert(resolved_name(members[members.len() - 1].0) is Ok);
        assert forall|i: int| 0 <= i < members.len() implies #[trigger] materialized(members)[i]
            == (resolved_name(members[i].0)->Ok_0, members[i].1) by {
            if i < shorter.len() {
                assert(materialized(members)[i] == materialized(shorter)[i]);
                assert(shorter[i] == members[i]);
            }
        }
    }
}

/// A container whose members all resolve to names, with one member named
/// `control.tar.gz`, one named `data.tar.gz` and no other tar-bearing name:
/// as long as both streams decode, unpacking it plans exactly the two jobs
/// of [`lemma_package_jobs`], in the order of the two members.
pub proof fn lemma_package_members(members: Seq<(Seq<u8>, Seq<u8>)>, c: int, d: int)
    requires
        0 <= c < members.len(),
        0 <= d < members.len(),
        forall|i: int| 0 <= i < members.len() ==> resolved_name(#[trigger] members[i].0) is Ok,
        resolved_name(members[c].0) == Ok::<Seq<char>, SkipReason>("control.tar.gz"@),
        resolved_name(members[d].0) == Ok::<Seq<char>, SkipReason>("data.tar.gz"@),
        gzip_decoded(members[c].1) is Ok,
        gzip_decoded(members[d].1) is Ok,
        forall|i: int|
            0 <= i < members.len() && i != c && i != d ==> !tar_bearing(
                resolved_name(#[trigger] members[i].0)->Ok_0,
            ),
    ensures
        !aborted(extraction_of(materialized(members))),
        c < d ==> extraction_of(materialized(members)) == seq![
            control_archive_job(gzip_decoded(members[c].1)->Ok_0),
            data_archive_job(gzip_decoded(members[d].1)->Ok_0),
        ],
        d < c ==> extraction_of(materialized(members)) == seq![
            data_archive_job(gzip_decoded(members[d].1)->Ok_0),
            control_archive_job(gzip_decoded(members[c].1)->Ok_0),
        ],
{
    lemma_all_members_kept(members);
    let files = materialized(members);
    assert(files[c] == (resolved_name(members[c].0)->Ok_0, members[c].1));
    assert(files[d] == (resolved_name(members[d].0)->Ok_0, members[d].1));
    assert forall|i: int| 0 <= i < files.len() && i != c && i != d implies !tar_bearing(
        #[trigger] files[i].0,
    ) by {
        assert(files[i] == (resolved_name(members[i].0)->Ok_0, members[i].1));
    }
    lemma_package_jobs(files, c, d);
}

/// Only the last job can be a failure: no job follows one.
pub proof fn lemma_failure_ends_the_run(files: Seq<(Seq<char>, Seq<u8>)>, i: int)
    requires
        0 <= i < extraction_of(files).len() - 1,
    ensures
        extraction_of(files)[i].outcome is Ok,
    decreases files.len(),
{
    let before = extraction_of(files.drop_last());
    if extraction_of(files) == before {
        lemma_failure_ends_the_run(files.drop_last(), i);
    } else if i < before.len() - 1 {
        lemma_failure_ends_the_run(files.drop_last(), i);
    }
}

/// A tar-bearing file with an unknown suffix ends the run where it stands:
/// its job is a failure of its own kind, and it is the last job, whatever
/// files follow.
pub proof fn lemma_unsupported_suffix_ends_the_run(files: Seq<(Seq<char>, Seq<u8>)>, k: int)
    requires
        0 <= k < files.len(),
        tar_bearing(files[k].0),
        codec_of(base_name(files[k].0)) is None,
        !aborted(extraction_of(files.take(k))),
    ensures
        extraction_of(files) == extraction_of(files.take(k)).push(job_of(files[k])),
        extraction_of(files).last().outcome == Err::<Seq<u8>, DebErrorView>(
            DebErrorView::UnsupportedCompression { source: files[k].0 },
        ),
{
    assert(files.take(k + 1).drop_last() =~= files.take(k));
    lemma_aborted_stays(files, k + 1);
}

/// Files that hold no tar stream add no job: where none of the files from
/// position `k` on is tar-bearing, the jobs are those of the files before.
pub proof fn lemma_other_files_add_no_job(files: Seq<(Seq<char>, Seq<u8>)>, k: int)
    requires
        0 <= k <= files.len(),
        forall|i: int| k <= i < files.len() ==> !tar_bearing(#[trigger] files[i].0),
    ensures
        extraction_of(files) == extraction_of(files.take(k)),
    decreases files.len(),
{
    if k < files.len() {
        let shorter = files.drop_last();
        assert forall|i: int| k <= i < shorter.len() implies !tar_bearing(
            #[trigger] shorter[i].0,
        ) by {
            assert(shorter[i] == files[i]);
        }
        lemma_other_files_add_no_job(shorter, k);
        assert(shorter.take(k) =~= files.take(k));
        assert(!tar_bearing(files[files.len() - 1].0));
    } else {
        assert(files.take(k) =~= files);
    }
}

/// The job of the gzipped control archive, given what its stream decodes to.
pub open spec fn control_archive_job(tar: Seq<u8>) -> TarJobView {
    TarJobView { source: "control.tar.gz"@, subdir: "control"@, warn: false, outcome: Ok(tar) }
}

/// The job of the gzipped data archive, given what its stream decodes to.
pub open spec fn data_archive_job(tar: Seq<u8>) -> TarJobView {
    TarJobView { source: "data.tar.gz"@, subdir: "data"@, warn: false, outcome: Ok(tar) }
}

/// The two well-known archives are tar-bearing, and where their streams
/// decode, their jobs unpack what the streams decode to into `control` and
/// into `data`, without a warning.
pub proof fn lemma_well_known_archive_jobs(content: Seq<u8>)
    requires
        gzip_decoded(content) is Ok,
    ensures
        tar_bearing("control.tar.gz"@),
        tar_bearing("data.tar.gz"@),
        job_of(("control.tar.gz"@, content)) == control_archive_job(gzip_decoded(content)->Ok_0),
        job_of(("data.tar.gz"@, content)) == data_archive_job(gzip_decoded(content)->Ok_0),
{
    reveal_strlit("control.tar.gz");
    reveal_strlit("data.tar.gz");
    reveal_strlit("control.tar");
    reveal_strlit("data.tar");
    reveal_strlit(".tar.gz");
    reveal_strlit(".tar");
    let control = "control.tar.gz"@;
    let data = "data.tar.gz"@;
    assert(occurs_at(control, 7, ".tar"@)) by {
        assert(control.subrange(7, 11) =~= ".tar"@);
    }
    assert(occurs_at(data, 4, ".tar"@)) by {
        assert(data.subrange(4, 8) =~= ".tar"@);
    }
    lemma_base_name(control, 0);
    lemma_base_name(data, 0);
    assert(control.skip(0) =~= control);
    assert(data.skip(0) =~= data);
    assert(".tar.gz"@.is_suffix_of(control)) by {
        assert(control.skip(7) =~= ".tar.gz"@);
    }
    assert(".tar.gz"@.is_suffix_of(data)) by {
        assert(data.skip(4) =~= ".tar.gz"@);
    }
    assert("control.tar"@.is_prefix_of(control)) by {
        assert(control.take(11) =~= "control.tar"@);
    }
    assert("data.tar"@.is_prefix_of(data)) by {
        assert(data.take(8) =~= "data.tar"@);
    }
    assert(!"control.tar"@.is_prefix_of(data)) by {
        if "control.tar"@.is_prefix_of(data) {
            assert(data.take(11)[0] == 'c');
        }
    }
}

/// A package with one gzipped control archive and one gzipped data archive
/// among its files, wherever the two stand, and no other tar-bearing file:
/// whatever the files hold, as long as both streams decode, there are
/// exactly two jobs, in the order of the two files. One unpacks what the
/// control archive decodes to, and nothing else, into `control`; the other
/// unpacks what the data archive decodes to, and nothing else, into `data`.
/// Neither warns, and the run does not fail.
pub proof fn lemma_package_jobs(files: Seq<(Seq<char>, Seq<u8>)>, c: int, d: int)
    requires
        0 <= c < files.len(),
        0 <= d < files.len(),
        files[c].0 == "control.tar.gz"@,
        files[d].0 == "data.tar.gz"@,
        gzip_decoded(files[c].1) is Ok,
        gzip_decoded(files[d].1) is Ok,
        forall|i: int|
            0 <= i < files.len() && i != c && i != d ==> !tar_bearing(#[trigger] files[i].0),
    ensures
        c != d,
        !aborted(extraction_of(files)),
        c < d ==> extraction_of(files) == seq![
            control_archive_job(gzip_decoded(files[c].1)->Ok_0),
            data_archive_job(gzip_decoded(files[d].1)->Ok_0),
        ],
        d < c ==> extraction_of(files) == seq![
            data_archive_job(gzip_decoded(files[d].1)->Ok_0),
            control_archive_job(gzip_decoded(files[c].1)->Ok_0),
        ],
{
    lemma_well_known_archive_jobs(files[c].1);
    lemma_well_known_archive_jobs(files[d].1);
    assert(c != d) by {
        reveal_strlit("control.tar.gz");
        reveal_strlit("data.tar.gz");
        if c == d {
            assert("control.tar.gz"@.len() == 14);
            assert("data.tar.gz"@.len() == 11);
        }
    }
    let first = if c < d {
        c
    } else {
        d
    };
    let second = if c < d {
        d
    } else {
        c
    };
    let upto_first = files.take(first + 1);
    let upto_second = files.take(second + 1);
    assert(upto_first.drop_last() =~= files.take(first));
    assert(upto_second.drop_last() =~= files.take(second));
    assert forall|i: int| 0 <= i < files.take(first).len() implies !tar_bearing(
        #[trigger] files.take(first)[i].0,
    ) by {
        assert(files.take(first)[i] == files[i]);
    }
    lemma_other_files_add_no_job(files.take(first), 0);
    assert(files.take(first).take(0) =~= Seq::<(Seq<char>, Seq<u8>)>::empty());
    assert(extraction_of(files.take(first)) =~= Seq::<TarJobView>::empty());
    assert(upto_first.last() == files[first]);
    assert(extraction_of(upto_first) =~= seq![job_of(files[first])]);
    assert forall|i: int| first + 1 <= i < files.take(second).len() implies !tar_bearing(
        #[trigger] files.take(second)[i].0,
    ) by {
        assert(files.take(second)[i] == files[i]);
    }
    lemma_other_files_add_no_job(files.take(second), first + 1);
    assert(files.take(second).take(first + 1) =~= upto_first);
    assert(upto_second.last() == files[second]);
    assert(extraction_of(upto_second) =~= seq![job_of(files[first]), job_of(files[second])]);
    lemma_other_files_add_no_job(files, second + 1);
}

/// Passes over the members in order: each one whose identifier resolves to
/// a name becomes a file of that name, each other one is recorded as
/// skipped. A skipped member changes nothing for those that follow.
pub fn materialize(members: Vec<ArchiveMember>) -> (m: Materialization)
    ensures
        files_view(m.files@) == materialized(members_view(members@)),
        skipped_view(m.skipped@) == skipped_of(members_view(members@)),
{
    let ghost all = members_view(members@);
    let mut files: Vec<ExtractedMemberFile> = Vec::new();
    let mut skipped: Vec<SkippedMember> = Vec::new();
    for member in iter: members.into_iter()
        invariant
            all == members_view(members@),
            iter.seq() == members@,
            files_view(files@) == materialized(all.take(iter.index() as int)),
            skipped_view(skipped@) == skipped_of(all.take(iter.index() as int)),
    {
        let ghost i = iter.index() as int;
        proof {
            assert(all[i] == member@);
            all.lemma_filter_map_take_succ(|m: (Seq<u8>, Seq<u8>)| kept(m), i);
            all.lemma_filter_map_take_succ(|m: (Seq<u8>, Seq<u8>)| passed_over(m), i);
        }
        let ArchiveMember { identifier, content } = member;
        match resolve_member_name(identifier.as_slice()) {
            Ok(name) => {
                files.push(ExtractedMemberFile { name, content });
                proof {
                    assert(files_view(files@) =~= materialized(all.take(i)) + seq![
                        (name@, content@),
                    ]);
                }
            },
            Err(reason) => {
                skipped.push(SkippedMember { identifier, reason });
                proof {
                    assert(skipped_view(skipped@) =~= skipped_of(all.take(i)) + seq![
                        (identifier@, reason),
                    ]);
                }
            },
        }
    }
    proof {
        assert(all.take(all.len() as int) =~= all);
    }
    Materialization { files, skipped }
}

/// Turns the decompressor's result for one file into the job's outcome.
pub fn unpack_outcome(source: &str, destination: &str, stream: Result<Vec<u8>, String>) -> (r:
    Result<Vec<u8>, DebError>)
    ensures
        outcome_view(r) == outcome_of(source@, destination@, stream_view(stream)),
{
    match stream {
        Ok(tar) => Ok(tar),
        Err(cause) => Err(
            DebError::TarUnpack {
                source: String::from_str(source),
                destination: String::from_str(destination),
                cause,
            },
        ),
    }
}

/// Obtains the tar stream that the file `source` holds: the transform is
/// chosen by the suffix of its file name, and an unknown suffix or a stream
/// that does not decode is a failure.
pub fn extract_single_tar_archive(source: &str, destination: &str, payload: &[u8]) -> (r: Result<
    Vec<u8>,
    DebError,
>)
    ensures
        outcome_view(r) == tar_stream_of(source@, destination@, payload@),
{
    let file_name = file_name_of(source);
    match select_codec(file_name.as_str()) {
        Err(_) => Err(DebError::UnsupportedCompression { source: String::from_str(source) }),
        Ok(codec) => unpack_outcome(source, destination, decode(codec, payload)),
    }
}

/// Once a prefix of the files has ended in a failure, the files after it
/// add no job.
proof fn lemma_aborted_stays(files: Seq<(Seq<char>, Seq<u8>)>, k: int)
    requires
        0 <= k <= files.len(),
        aborted(extraction_of(files.take(k))),
    ensures
        extraction_of(files) == extraction_of(files.take(k)),
    decreases files.len(),
{
    if k < files.len() {
        assert(files.drop_last().take(k) =~= files.take(k));
        lemma_aborted_stays(files.drop_last(), k);
    } else {
        assert(files.take(k) =~= files);
    }
}

/// Plans the extraction of every tar-bearing file, in the order in which
/// the files stand. The run ends with the first job that fails.
pub fn extract_tar(files: &Vec<ExtractedMemberFile>) -> (jobs: Vec<TarJob>)
    ensures
        jobs_view(jobs@) == extraction_of(files_view(files@)),
{
    let ghost all = files_view(files@);
    let mut jobs: Vec<TarJob> = Vec::new();
    let mut i: usize = 0;
    while i < files.len()
        invariant
            all == files_view(files@),
            i <= files.len(),
            jobs_view(jobs@) == extraction_of(all.take(i as int)),
            !aborted(jobs_view(jobs@)),
        decreases files.len() - i,
    {
        let file = &files[i];
        proof {
            assert(all.take(i + 1).drop_last() =~= all.take(i as int));
            assert(all.take(i + 1).last() == file@);
        }
        if is_tar_candidate(file.name.as_str()) {
            let file_name = file_name_of(file.name.as_str());
            let destination = destination_subdir(file_name.as_str());
            let outcome = extract_single_tar_archive(
                file.name.as_str(),
                destination.subdir.as_str(),
                file.content.as_slice(),
            );
            let failed = outcome.is_err();
            let job = TarJob { source: String::from_str(file.name.as_str()), destination, outcome };
            proof {
                assert(job@ == job_of(file@));
            }
            jobs.push(job);
            proof {
                assert(jobs_view(jobs@) =~= extraction_of(all.take(i as int)).push(job_of(file@)));
            }
            if failed {
                proof {
                    lemma_aborted_stays(all, i + 1);
                }
                return jobs;
            }
        }
        i = i + 1;
    }
    proof {
        assert(all.take(i as int) =~= all);
    }
    jobs
}

/// Unpacks a package held in memory: reads the container's members, turns
/// them into files, and plans the extraction of those that hold tar
/// streams. A container that cannot be read to its end yields nothing.
pub fn handle_deb_package(bytes: &[u8]) -> (r: Result<Unpacking, DebError>)
    ensures
        match r {
            Ok(u) => {
                &&& container_readable(bytes@)
                &&& files_view(u.files@) == materialized(container_members(bytes@))
                &&& skipped_view(u.skipped@) == skipped_of(container_members(bytes@))
                &&& jobs_view(u.jobs@) == extraction_of(materialized(container_members(bytes@)))
            },
            Err(e) => !container_readable(bytes@) && e@ == DebErrorView::MalformedContainer,
        },
{
    match read_members(bytes) {
        Err(e) => Err(e),
        Ok(members) => {
            let Materialization { files, skipped } = materialize(members);
            let jobs = extract_tar(&files);
            Ok(Unpacking { files, skipped, jobs })
        },
    }
}

} // verus!
