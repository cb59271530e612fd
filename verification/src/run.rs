//! The backup orchestrator: one pass over the discovered repositories, in
//! order, with per-repository failure isolation — a failed fetch is recorded
//! as an outcome and the loop continues — and the summary counts. The pass is
//! modelled against the set of archive filenames already on disk and the
//! answer the network would give each fetch, which is exactly what the
//! surrounding process observes and feeds in.

use vstd::prelude::*;

use crate::archive::{archive_filename, spec_archive_filename, Outcome};
use crate::errors::BackupError;
use crate::repo::Repo;

verus! {

/// The filenames present in the output directory, as a set.
pub open spec fn files_set(files: Seq<String>) -> Set<Seq<char>> {
    Set::new(|x: Seq<char>| exists|i: int| 0 <= i < files.len() && files[i]@ == x)
}

/// Executable membership test against the output-directory model.
#[verifier::loop_isolation(false)]
pub fn contains_file(files: &Vec<String>, name: &String) -> (b: bool)
    ensures
        b == files_set(files@).contains(name@),
{
    let mut i: usize = 0;
    while i < files.len()
        invariant
            i <= files@.len(),
            forall|j: int| 0 <= j < i ==> (#[trigger] files@[j])@ != name@,
        decreases files@.len() - i,
    {
        if files[i].eq(name) {
            assert(files_set(files@).contains(name@));
            return true;
        }
        i = i + 1;
    }
    assert(!files_set(files@).contains(name@));
    false
}

/// The archive filename one repository's attempt works with.
pub open spec fn spec_repo_filename(owner: Seq<char>, repo: Repo) -> Seq<char> {
    spec_archive_filename(owner, repo.name@, repo.updated_at@)
}

/// The outcome of one attempt: an existing file is skipped without any
/// network call; otherwise the fetch answer decides between a download and a
/// recorded failure.
pub open spec fn spec_attempt_outcome(
    fs: Set<Seq<char>>,
    owner: Seq<char>,
    repo: Repo,
    fetch: Result<u64, u16>,
) -> Outcome {
    if fs.contains(spec_repo_filename(owner, repo)) {
        Outcome::Skipped
    } else {
        match fetch {
            Ok(bytes) => Outcome::Downloaded { bytes },
            Err(status) => Outcome::Failed { error: BackupError::Api { status } },
        }
    }
}

/// The on-disk filenames after one attempt: only a successful download of a
/// missing archive writes a file; a skip or a failure leaves the directory
/// as it was.
pub open spec fn spec_attempt_fs(
    fs: Set<Seq<char>>,
    owner: Seq<char>,
    repo: Repo,
    fetch: Result<u64, u16>,
) -> Set<Seq<char>> {
    if fs.contains(spec_repo_filename(owner, repo)) {
        fs
    } else {
        match fetch {
            Ok(_) => fs.insert(spec_repo_filename(owner, repo)),
            Err(_) => fs,
        }
    }
}

/// The on-disk filenames after a whole pass, attempts taken in order.
pub open spec fn spec_run_fs(
    fs: Set<Seq<char>>,
    owner: Seq<char>,
    repos: Seq<Repo>,
    fetches: Seq<Result<u64, u16>>,
) -> Set<Seq<char>>
    decreases repos.len(),
{
    if repos.len() == 0 {
        fs
    } else {
        spec_run_fs(
            spec_attempt_fs(fs, owner, repos[0], fetches[0]),
            owner,
            repos.drop_first(),
            fetches.drop_first(),
        )
    }
}

/// The outcomes of a whole pass, one per repository, in order.
pub open spec fn spec_run_outcomes(
    fs: Set<Seq<char>>,
    owner: Seq<char>,
    repos: Seq<Repo>,
    fetches: Seq<Result<u64, u16>>,
) -> Seq<Outcome>
    decreases repos.len(),
{
    if repos.len() == 0 {
        Seq::empty()
    } else {
        seq![spec_attempt_outcome(fs, owner, repos[0], fetches[0])] + spec_run_outcomes(
            spec_attempt_fs(fs, owner, repos[0], fetches[0]),
            owner,
            repos.drop_first(),
            fetches.drop_first(),
        )
    }
}

/// Extending a pass by one repository runs that attempt against the files
/// the earlier attempts left behind.
pub proof fn lemma_run_snoc(
    fs: Set<Seq<char>>,
    owner: Seq<char>,
    repos: Seq<Repo>,
    fetches: Seq<Result<u64, u16>>,
    repo: Repo,
    fetch: Result<u64, u16>,
)
    requires
        repos.len() == fetches.len(),
    ensures
        spec_run_fs(fs, owner, repos.push(repo), fetches.push(fetch)) == spec_attempt_fs(
            spec_run_fs(fs, owner, repos, fetches),
            owner,
            repo,
            fetch,
        ),
        spec_run_outcomes(fs, owner, repos.push(repo), fetches.push(fetch)) == spec_run_outcomes(
            fs,
            owner,
            repos,
            fetches,
        ).push(spec_attempt_outcome(spec_run_fs(fs, owner, repos, fetches), owner, repo, fetch)),
    decreases repos.len(),
{
    let rs = repos.push(repo);
    let fq = fetches.push(fetch);
    let a = spec_attempt_fs(fs, owner, rs[0], fq[0]);
    assert(spec_run_fs(fs, owner, rs, fq) == spec_run_fs(
        a,
        owner,
        rs.drop_first(),
        fq.drop_first(),
    ));
    assert(spec_run_outcomes(fs, owner, rs, fq) == seq![
        spec_attempt_outcome(fs, owner, rs[0], fq[0]),
    ] + spec_run_outcomes(a, owner, rs.drop_first(), fq.drop_first()));
    if repos.len() == 0 {
        assert(rs[0] == repo);
        assert(fq[0] == fetch);
        assert(rs.drop_first() =~= Seq::<Repo>::empty());
        assert(fq.drop_first() =~= Seq::<Result<u64, u16>>::empty());
        assert(spec_run_fs(a, owner, rs.drop_first(), fq.drop_first()) == a);
        assert(spec_run_fs(fs, owner, repos, fetches) == fs);
        assert(spec_run_outcomes(a, owner, rs.drop_first(), fq.drop_first()) =~= Seq::<
            Outcome,
        >::empty());
        assert(spec_run_outcomes(fs, owner, repos, fetches) =~= Seq::<Outcome>::empty());
        assert(spec_run_outcomes(fs, owner, rs, fq) =~= spec_run_outcomes(
            fs,
            owner,
            repos,
            fetches,
        ).push(spec_attempt_outcome(spec_run_fs(fs, owner, repos, fetches), owner, repo, fetch)));
    } else {
        assert(rs[0] == repos[0]);
        assert(fq[0] == fetches[0]);
        let fs1 = spec_attempt_fs(fs, owner, repos[0], fetches[0]);
        lemma_run_snoc(fs1, owner, repos.drop_first(), fetches.drop_first(), repo, fetch);
        assert(rs.drop_first() =~= repos.drop_first().push(repo));
        assert(fq.drop_first() =~= fetches.drop_first().push(fetch));
        assert(spec_run_fs(fs, owner, rs, fq) == spec_attempt_fs(
            spec_run_fs(fs1, owner, repos.drop_first(), fetches.drop_first()),
            owner,
            repo,
            fetch,
        ));
        assert(spec_run_fs(fs, owner, repos, fetches) == spec_run_fs(
            fs1,
            owner,
            repos.drop_first(),
            fetches.drop_first(),
        ));
        assert(spec_run_outcomes(fs, owner, rs, fq) =~= spec_run_outcomes(
            fs,
            owner,
            repos,
            fetches,
        ).push(spec_attempt_outcome(spec_run_fs(fs, owner, repos, fetches), owner, repo, fetch)));
    }
}

/// One backup pass over the discovered repositories, attempted in listing
/// order against the output-directory model `files`; `fetches[i]` is what
/// the network answers if repository `i` is fetched: the transferred byte
/// count, or the non-success HTTP status.
///
/// Every repository yields exactly one outcome — a failed fetch is recorded
/// and never stops the pass — and only successful downloads of missing
/// archives add files.
#[verifier::loop_isolation(false)]
pub fn run_backup(
    files: &mut Vec<String>,
    owner: &str,
    repos: &Vec<Repo>,
    fetches: &Vec<Result<u64, u16>>,
) -> (outcomes: Vec<Outcome>)
    requires
        fetches@.len() == repos@.len(),
    ensures
        outcomes@.len() == repos@.len(),
        outcomes@ == spec_run_outcomes(files_set(old(files)@), owner@, repos@, fetches@),
        files_set(final(files)@) == spec_run_fs(files_set(old(files)@), owner@, repos@, fetches@),
{
    let ghost init_fs = files_set(files@);
    let mut outcomes: Vec<Outcome> = Vec::new();
    let mut i: usize = 0;
    proof {
        assert(repos@.take(0) =~= Seq::<Repo>::empty());
        assert(fetches@.take(0) =~= Seq::<Result<u64, u16>>::empty());
    }
    while i < repos.len()
        invariant
            i <= repos@.len(),
            outcomes@.len() == i,
            outcomes@ == spec_run_outcomes(init_fs, owner@, repos@.take(i as int), fetches@.take(i as int)),
            files_set(files@) == spec_run_fs(init_fs, owner@, repos@.take(i as int), fetches@.take(i as int)),
        decreases repos@.len() - i,
    {
        let ghost cur_fs = files_set(files@);
        let repo = &repos[i];
        let fname = archive_filename(owner, repo.name.as_str(), repo.updated_at.as_str());
        proof {
            assert(fname@ == spec_repo_filename(owner@, repos@[i as int]));
            lemma_run_snoc(
                init_fs,
                owner@,
                repos@.take(i as int),
                fetches@.take(i as int),
                repos@[i as int],
                fetches@[i as int],
            );
            assert(repos@.take(i + 1) =~= repos@.take(i as int).push(repos@[i as int]));
            assert(fetches@.take(i + 1) =~= fetches@.take(i as int).push(fetches@[i as int]));
        }
        if contains_file(files, &fname) {
            outcomes.push(Outcome::Skipped);
        } else {
            let f: &Result<u64, u16> = &fetches[i];
            match f {
                Ok(b) => {
                    let bytes: u64 = *b;
                    let ghost oldf = files@;
                    let ghost fname_v = fname@;
                    files.push(fname);
                    proof {
                        assert forall|x: Seq<char>|
                            files_set(files@).contains(x) <==> cur_fs.insert(fname_v).contains(
                                x,
                            ) by {
                            if files_set(files@).contains(x) {
                                let j = choose|j: int|
                                    0 <= j < files@.len() && (#[trigger] files@[j])@ == x;
                                if j < oldf.len() {
                                    assert(oldf[j]@ == x);
                                    assert(cur_fs.contains(x));
                                } else {
                                    assert(x == fname_v);
                                }
                            }
                            if cur_fs.insert(fname_v).contains(x) {
                                if x == fname_v {
                                    assert((files@[oldf.len() as int])@ == x);
                                    assert(files_set(files@).contains(x));
                                } else {
                                    assert(cur_fs.contains(x));
                                    let j = choose|j: int|
                                        0 <= j < oldf.len() && (#[trigger] oldf[j])@ == x;
                                    assert((files@[j])@ == x);
                                    assert(files_set(files@).contains(x));
                                }
                            }
                        }
                        assert(files_set(files@) =~= cur_fs.insert(fname_v));
                    }
                    outcomes.push(Outcome::Downloaded { bytes });
                },
                Err(s) => {
                    let status: u16 = *s;
                    outcomes.push(Outcome::Failed { error: BackupError::Api { status } });
                },
            }
        }
        i = i + 1;
    }
    proof {
        assert(repos@.take(repos@.len() as int) =~= repos@);
        assert(fetches@.take(fetches@.len() as int) =~= fetches@);
    }
    outcomes
}

/// Number of downloads among the outcomes.
pub open spec fn count_downloaded(s: Seq<Outcome>) -> int
    decreases s.len(),
{
    if s.len() == 0 {
        0
    } else {
        (if s[0] matches Outcome::Downloaded { .. } {
            1int
        } else {
            0int
        }) + count_downloaded(s.drop_first())
    }
}

/// Number of skips among the outcomes.
pub open spec fn count_skipped(s: Seq<Outcome>) -> int
    decreases s.len(),
{
    if s.len() == 0 {
        0
    } else {
        (if (s[0] matches Outcome::Skipped) {
            1int
        } else {
            0int
        }) + count_skipped(s.drop_first())
    }
}

/// Number of recorded failures among the outcomes.
pub open spec fn count_failed(s: Seq<Outcome>) -> int
    decreases s.len(),
{
    if s.len() == 0 {
        0
    } else {
        (if s[0] matches Outcome::Failed { .. } {
            1int
        } else {
            0int
        }) + count_failed(s.drop_first())
    }
}

/// One more outcome raises exactly the matching count.
pub proof fn lemma_counts_push(s: Seq<Outcome>, x: Outcome)
    ensures
        count_downloaded(s.push(x)) == count_downloaded(s) + (if x matches Outcome::Downloaded {
            ..
        } {
            1int
        } else {
            0int
        }),
        count_skipped(s.push(x)) == count_skipped(s) + (if (x matches Outcome::Skipped) {
            1int
        } else {
            0int
        }),
        count_failed(s.push(x)) == count_failed(s) + (if x matches Outcome::Failed { .. } {
            1int
        } else {
            0int
        }),
    decreases s.len(),
{
    let p = s.push(x);
    if s.len() == 0 {
        assert(p[0] == x);
        assert(p.drop_first() =~= Seq::<Outcome>::empty());
        assert(count_downloaded(p.drop_first()) == 0);
        assert(count_skipped(p.drop_first()) == 0);
        assert(count_failed(p.drop_first()) == 0);
    } else {
        assert(p[0] == s[0]);
        lemma_counts_push(s.drop_first(), x);
        assert(p.drop_first() =~= s.drop_first().push(x));
    }
}

/// Aggregate report of one pass: how many repositories were downloaded,
/// skipped because their archive already existed, and recorded as failed.
pub struct RunSummary {
    /// Archives fetched and written.
    pub succeeded: u64,
    /// Archives already present; no network call was made.
    pub skipped: u64,
    /// Attempts that failed and were recorded.
    pub failed: u64,
}

/// Counts the outcomes of one pass. Every outcome lands in exactly one
/// bucket, so the three counts always add up to the number of repositories.
#[verifier::loop_isolation(false)]
pub fn summarize(outcomes: &Vec<Outcome>) -> (s: RunSummary)
    ensures
        s.succeeded == count_downloaded(outcomes@),
        s.skipped == count_skipped(outcomes@),
        s.failed == count_failed(outcomes@),
        s.succeeded + s.skipped + s.failed == outcomes@.len(),
{
    let mut succeeded: u64 = 0;
    let mut skipped: u64 = 0;
    let mut failed: u64 = 0;
    let mut i: usize = 0;
    proof {
        assert(outcomes@.take(0) =~= Seq::<Outcome>::empty());
    }
    while i < outcomes.len()
        invariant
            i <= outcomes@.len(),
            succeeded == count_downloaded(outcomes@.take(i as int)),
            skipped == count_skipped(outcomes@.take(i as int)),
            failed == count_failed(outcomes@.take(i as int)),
            succeeded + skipped + failed == i,
        decreases outcomes@.len() - i,
    {
        proof {
            lemma_counts_push(outcomes@.take(i as int), outcomes@[i as int]);
            assert(outcomes@.take(i + 1) =~= outcomes@.take(i as int).push(outcomes@[i as int]));
        }
        match &outcomes[i] {
            Outcome::Downloaded { .. } => {
                succeeded = succeeded + 1;
            },
            Outcome::Skipped => {
                skipped = skipped + 1;
            },
            Outcome::Failed { .. } => {
                failed = failed + 1;
            },
        }
        i = i + 1;
    }
    proof {
        assert(outcomes@.take(outcomes@.len() as int) =~= outcomes@);
    }
    RunSummary { succeeded, skipped, failed }
}

/// A pass never removes a file: the output directory only grows.
pub proof fn lemma_run_fs_monotone(
    fs: Set<Seq<char>>,
    owner: Seq<char>,
    repos: Seq<Repo>,
    fetches: Seq<Result<u64, u16>>,
)
    requires
        repos.len() == fetches.len(),
    ensures
        forall|x: Seq<char>|
            fs.contains(x) ==> #[trigger] spec_run_fs(fs, owner, repos, fetches).contains(x),
    decreases repos.len(),
{
    if repos.len() > 0 {
        let fs1 = spec_attempt_fs(fs, owner, repos[0], fetches[0]);
        lemma_run_fs_monotone(fs1, owner, repos.drop_first(), fetches.drop_first());
        assert forall|x: Seq<char>|
            fs.contains(x) implies #[trigger] spec_run_fs(fs, owner, repos, fetches).contains(
            x,
        ) by {
            assert(fs1.contains(x));
            assert(spec_run_fs(fs1, owner, repos.drop_first(), fetches.drop_first()).contains(x));
        }
    }
}

/// After a pass in which every fetch succeeds, every repository's archive
/// file is on disk.
pub proof fn lemma_run_fs_covers(
    fs: Set<Seq<char>>,
    owner: Seq<char>,
    repos: Seq<Repo>,
    fetches: Seq<Result<u64, u16>>,
)
    requires
        repos.len() == fetches.len(),
        forall|i: int| 0 <= i < fetches.len() ==> (#[trigger] fetches[i]) is Ok,
    ensures
        forall|i: int|
            0 <= i < repos.len() ==> spec_run_fs(fs, owner, repos, fetches).contains(
                spec_repo_filename(owner, #[trigger] repos[i]),
            ),
    decreases repos.len(),
{
    if repos.len() > 0 {
        let fs1 = spec_attempt_fs(fs, owner, repos[0], fetches[0]);
        assert(fetches[0] is Ok);
        assert(fs1.contains(spec_repo_filename(owner, repos[0])));
        lemma_run_fs_monotone(fs1, owner, repos.drop_first(), fetches.drop_first());
        assert(forall|i: int|
            0 <= i < fetches.drop_first().len() ==> (#[trigger] fetches.drop_first()[i]) is Ok);
        lemma_run_fs_covers(fs1, owner, repos.drop_first(), fetches.drop_first());
        assert forall|i: int|
            0 <= i < repos.len() implies spec_run_fs(fs, owner, repos, fetches).contains(
            spec_repo_filename(owner, #[trigger] repos[i]),
        ) by {
            if i == 0 {
                assert(spec_run_fs(fs1, owner, repos.drop_first(), fetches.drop_first()).contains(
                    spec_repo_filename(owner, repos[0]),
                ));
            } else {
                assert(repos.drop_first()[i - 1] == repos[i]);
                assert(spec_run_fs(fs1, owner, repos.drop_first(), fetches.drop_first()).contains(
                    spec_repo_filename(owner, repos.drop_first()[i - 1]),
                ));
            }
        }
    }
}

/// Against a directory that already holds every repository's archive, a pass
/// changes nothing and every attempt is a skip, whatever the network would
/// have answered.
pub proof fn lemma_run_all_skipped(
    fs: Set<Seq<char>>,
    owner: Seq<char>,
    repos: Seq<Repo>,
    fetches: Seq<Result<u64, u16>>,
)
    requires
        repos.len() == fetches.len(),
        forall|i: int|
            0 <= i < repos.len() ==> fs.contains(spec_repo_filename(owner, #[trigger] repos[i])),
    ensures
        spec_run_fs(fs, owner, repos, fetches) == fs,
        spec_run_outcomes(fs, owner, repos, fetches).len() == repos.len(),
        forall|i: int|
            0 <= i < repos.len() ==> spec_run_outcomes(fs, owner, repos, fetches)[i]
                == Outcome::Skipped,
    decreases repos.len(),
{
    if repos.len() > 0 {
        assert(fs.contains(spec_repo_filename(owner, repos[0])));
        assert(spec_attempt_fs(fs, owner, repos[0], fetches[0]) == fs);
        assert(spec_attempt_outcome(fs, owner, repos[0], fetches[0]) == Outcome::Skipped);
        assert(forall|i: int|
            0 <= i < repos.drop_first().len() ==> fs.contains(
                spec_repo_filename(owner, #[trigger] repos.drop_first()[i]),
            ));
        lemma_run_all_skipped(fs, owner, repos.drop_first(), fetches.drop_first());
    }
}

/// Idempotent re-run: after one pass in which every attempted fetch
/// succeeded, a second pass over the same repositories finds every archive
/// already on disk. The second pass changes no file and every one of its
/// outcomes is a skip, so it downloads nothing — whatever the network would
/// answer it.
pub proof fn lemma_rerun_idempotent(
    fs: Set<Seq<char>>,
    owner: Seq<char>,
    repos: Seq<Repo>,
    fetches1: Seq<Result<u64, u16>>,
    fetches2: Seq<Result<u64, u16>>,
)
    requires
        repos.len() == fetches1.len(),
        repos.len() == fetches2.len(),
        forall|i: int| 0 <= i < fetches1.len() ==> (#[trigger] fetches1[i]) is Ok,
    ensures
        spec_run_fs(spec_run_fs(fs, owner, repos, fetches1), owner, repos, fetches2)
            == spec_run_fs(fs, owner, repos, fetches1),
        spec_run_outcomes(
            spec_run_fs(fs, owner, repos, fetches1),
            owner,
            repos,
            fetches2,
        ).len() == repos.len(),
        forall|i: int|
            0 <= i < repos.len() ==> spec_run_outcomes(
                spec_run_fs(fs, owner, repos, fetches1),
                owner,
                repos,
                fetches2,
            )[i] == Outcome::Skipped,
{
    let fs1 = spec_run_fs(fs, owner, repos, fetches1);
    lemma_run_fs_covers(fs, owner, repos, fetches1);
    lemma_run_all_skipped(fs1, owner, repos, fetches2);
}

} // verus!
