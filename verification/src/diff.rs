use vstd::prelude::*;

verus! {

/// How one line of a comparison reads: unchanged, only in the peer text, or
/// only in the baseline text.
#[derive(Clone, Copy, Debug, PartialEq, Eq, Structural)]
pub enum DiffTag {
    Equal,
    Insert,
    Delete,
}

/// The model of a list of tagged lines.
pub open spec fn diffs_model(s: Seq<(DiffTag, String)>) -> Seq<(DiffTag, Seq<char>)> {
    Seq::new(s.len(), |i: int| (s[i].0, s[i].1@))
}

/// The line diff of two texts: what the diff algorithm returns for them. It
/// depends on the two texts alone.
pub uninterp spec fn line_diff_of(old: Seq<char>, new: Seq<char>) -> Seq<(DiffTag, Seq<char>)>;

/// Whether any entry is not an unchanged line.
pub open spec fn has_changes(d: Seq<(DiffTag, Seq<char>)>) -> bool {
    exists|i: int| 0 <= i < d.len() && d[i].0 != DiffTag::Equal
}

/// Relies on similar's TextDiff::from_lines and iter_all_changes: the diff
/// of two equal texts reports every line unchanged; a diff that reports
/// every line unchanged can only come from equal texts, since the unchanged
/// lines of both sides then cover and reconstruct both inputs; and the diff
/// depends on the two texts alone.
#[verifier::external_body]
pub fn diff_lines(old_text: &str, new_text: &str) -> (r: Vec<(DiffTag, String)>)
    ensures
        diffs_model(r@) == line_diff_of(old_text@, new_text@),
        old_text@ == new_text@ ==> !has_changes(diffs_model(r@)),
        !has_changes(diffs_model(r@)) ==> old_text@ == new_text@,
{
    let diff = similar::TextDiff::from_lines(old_text, new_text);
    diff.iter_all_changes()
        .map(|change| {
            let tag = match change.tag() {
                similar::ChangeTag::Equal => DiffTag::Equal,
                similar::ChangeTag::Insert => DiffTag::Insert,
                similar::ChangeTag::Delete => DiffTag::Delete,
            };
            (tag, change.value().to_owned())
        })
        .collect()
}

/// Whether some request of a job counts as failed, comparing every text
/// against the text at the baseline position: a transport failure or any
/// difference from the baseline fails the job.
pub open spec fn spec_job_failed(texts: Seq<Seq<char>>, fails: Seq<bool>, baseline: int) -> bool {
    exists|i: int|
        0 <= i < texts.len() && ((0 <= i < fails.len() && fails[i]) || texts[i] != texts[baseline])
}

/// Which domain serves as the baseline does not change whether a job is
/// classified as failed: some pair of texts differs, or some request failed,
/// under any choice of baseline.
pub proof fn lemma_baseline_choice(texts: Seq<Seq<char>>, fails: Seq<bool>, b1: int, b2: int)
    requires
        0 <= b1 < texts.len(),
        0 <= b2 < texts.len(),
        fails.len() == texts.len(),
    ensures
        spec_job_failed(texts, fails, b1) == spec_job_failed(texts, fails, b2),
{
    if spec_job_failed(texts, fails, b1) {
        let i = choose|i: int|
            0 <= i < texts.len() && ((0 <= i < fails.len() && fails[i]) || texts[i] != texts[b1]);
        if 0 <= i < fails.len() && fails[i] {
            assert(spec_job_failed(texts, fails, b2));
        } else {
            if texts[b2] != texts[b1] {
                assert(texts[b1] != texts[b2]);
                assert(spec_job_failed(texts, fails, b2));
            } else {
                assert(texts[i] != texts[b2]);
                assert(spec_job_failed(texts, fails, b2));
            }
        }
    }
    if spec_job_failed(texts, fails, b2) {
        let i = choose|i: int|
            0 <= i < texts.len() && ((0 <= i < fails.len() && fails[i]) || texts[i] != texts[b2]);
        if 0 <= i < fails.len() && fails[i] {
            assert(spec_job_failed(texts, fails, b1));
        } else {
            if texts[b1] != texts[b2] {
                assert(spec_job_failed(texts, fails, b1));
            } else {
                assert(texts[i] != texts[b1]);
                assert(spec_job_failed(texts, fails, b1));
            }
        }
    }
}

} // verus!
