//! Per-repository archive download: deterministic filename derivation,
//! the skip-if-present decision, the archive endpoint URL, and the
//! fixed-size-chunk streaming model with its byte accounting.

use vstd::prelude::*;
use vstd::slice::{slice_subrange, slice_to_vec};

use crate::errors::BackupError;
use crate::spec_status_success;
use crate::status_is_success;

verus! {

/// Index of the first `T` in `s`, or `s.len()` when none occurs.
pub open spec fn t_pos(s: Seq<char>) -> int
    decreases s.len(),
{
    if s.len() == 0 {
        0
    } else if s[0] == 'T' {
        0
    } else {
        1 + t_pos(s.drop_first())
    }
}

/// The date part of a timestamp: everything before the first `T`, or the
/// literal fallback when no `T` occurs.
pub open spec fn spec_date_part(s: Seq<char>) -> Seq<char> {
    if t_pos(s) < s.len() {
        s.take(t_pos(s))
    } else {
        "unknown"@
    }
}

/// `t_pos` is `k` exactly when no `T` stands before position `k` and
/// position `k` — if inside the string — holds one.
pub proof fn lemma_t_pos_at(s: Seq<char>, k: int)
    requires
        0 <= k <= s.len(),
        forall|j: int| 0 <= j < k ==> s[j] != 'T',
        k < s.len() ==> s[k] == 'T',
    ensures
        t_pos(s) == k,
    decreases s.len(),
{
    if k > 0 {
        lemma_t_pos_at(s.drop_first(), k - 1);
    }
}

/// Extracts the date part of an update timestamp, as `spec_date_part` says.
pub fn date_part(s: &str) -> (r: String)
    ensures
        r@ == spec_date_part(s@),
{
    let n = s.unicode_len();
    let mut i: usize = 0;
    while i < n
        invariant
            n == s@.len(),
            i <= n,
            forall|j: int| 0 <= j < i ==> s@[j] != 'T',
        decreases n - i,
    {
        if s.get_char(i) == 'T' {
            proof {
                lemma_t_pos_at(s@, i as int);
            }
            let d = s.substring_char(0, i);
            proof {
                assert(d@ =~= spec_date_part(s@));
            }
            return d.to_owned();
        }
        i = i + 1;
    }
    proof {
        lemma_t_pos_at(s@, s@.len() as int);
    }
    "unknown".to_owned()
}

/// A path separator becomes an underscore; every other character stays.
pub open spec fn spec_safe_char(c: char) -> char {
    if c == '/' {
        '_'
    } else {
        c
    }
}

/// The repository name with every `/` replaced by `_`, so the filename can
/// create neither a nested directory nor a traversal.
pub open spec fn spec_safe_name(s: Seq<char>) -> Seq<char> {
    s.map_values(|c: char| spec_safe_char(c))
}

/// Executable counterpart of `spec_safe_name`.
#[verifier::loop_isolation(false)]
pub fn safe_name(s: &str) -> (r: String)
    ensures
        r@ == spec_safe_name(s@),
{
    let n = s.unicode_len();
    let mut out = String::new();
    let mut i: usize = 0;
    proof {
        assert(out@ =~= spec_safe_name(s@.take(0)));
    }
    while i < n
        invariant
            i <= n,
            out@ == spec_safe_name(s@.take(i as int)),
        decreases n - i,
    {
        let c = s.get_char(i);
        if c == '/' {
            out.append("_");
            proof {
                reveal_strlit("_");
                assert(out@ =~= spec_safe_name(s@.take(i + 1)));
            }
        } else {
            let piece = s.substring_char(i, i + 1);
            out.append(piece);
            proof {
                assert(out@ =~= spec_safe_name(s@.take(i + 1)));
            }
        }
        i = i + 1;
    }
    proof {
        assert(s@.take(n as int) =~= s@);
    }
    out
}

/// The deterministic archive filename: owner, safe repository name and the
/// date part of the update timestamp, joined by underscores, with the `.zip`
/// suffix. The same inputs always yield the same name.
pub open spec fn spec_archive_filename(
    owner: Seq<char>,
    name: Seq<char>,
    updated_at: Seq<char>,
) -> Seq<char> {
    owner + "_"@ + spec_safe_name(name) + "_"@ + spec_date_part(updated_at) + ".zip"@
}

/// Builds the archive filename, exactly as `spec_archive_filename` says.
pub fn archive_filename(owner: &str, name: &str, updated_at: &str) -> (f: String)
    ensures
        f@ == spec_archive_filename(owner@, name@, updated_at@),
{
    let mut f = owner.to_owned();
    f.append("_");
    let sn = safe_name(name);
    f.append(sn.as_str());
    f.append("_");
    let d = date_part(updated_at);
    f.append(d.as_str());
    f.append(".zip");
    proof {
        assert(f@ =~= spec_archive_filename(owner@, name@, updated_at@));
    }
    f
}

/// The archive endpoint URL for one repository and branch.
pub open spec fn spec_archive_url(owner: Seq<char>, name: Seq<char>, branch: Seq<char>) -> Seq<
    char,
> {
    "https://api.github.com/repos/"@ + owner + "/"@ + name + "/zipball/"@ + branch
}

/// Builds the archive endpoint URL, exactly as `spec_archive_url` says.
pub fn archive_url(owner: &str, name: &str, branch: &str) -> (u: String)
    ensures
        u@ == spec_archive_url(owner@, name@, branch@),
{
    let mut u = "https://api.github.com/repos/".to_owned();
    u.append(owner);
    u.append("/");
    u.append(name);
    u.append("/zipball/");
    u.append(branch);
    proof {
        assert(u@ =~= spec_archive_url(owner@, name@, branch@));
    }
    u
}

/// The downloader's first decision for one repository.
pub enum DownloadAction {
    /// The archive file already exists: no network call is made.
    Skip,
    /// The archive is missing: fetch this URL.
    Fetch(String),
}

/// Decides whether to skip or fetch: an existing file is the sole
/// de-duplication signal, and a missing one leads to the archive endpoint
/// for the repository's default branch.
pub fn plan_download(exists: bool, owner: &str, name: &str, branch: &str) -> (a: DownloadAction)
    ensures
        exists ==> a == DownloadAction::Skip,
        !exists ==> (a matches DownloadAction::Fetch(u) && u@ == spec_archive_url(
            owner@,
            name@,
            branch@,
        )),
{
    if exists {
        DownloadAction::Skip
    } else {
        DownloadAction::Fetch(archive_url(owner, name, branch))
    }
}

/// Decides what a fetch status means: success opens the output file and the
/// streaming starts; anything else is the per-repository error, and nothing
/// is written to disk.
pub fn archive_fetch_check(status: u16) -> (r: Result<(), BackupError>)
    ensures
        spec_status_success(status) ==> r is Ok,
        !spec_status_success(status) ==> r == Err::<(), BackupError>(
            BackupError::Api { status },
        ),
{
    if status_is_success(status) {
        Ok(())
    } else {
        Err(BackupError::Api { status })
    }
}

/// Running total of transferred bytes for one download.
pub struct Transfer {
    /// Bytes transferred so far.
    pub bytes: u64,
}

impl Transfer {
    /// A fresh download starts at zero bytes.
    pub fn new() -> (t: Transfer)
        ensures
            t.bytes == 0,
    {
        Transfer { bytes: 0 }
    }

    /// Accounts one chunk of `n` bytes.
    pub fn record_chunk(&mut self, n: usize)
        requires
            old(self).bytes + n <= u64::MAX,
        ensures
            final(self).bytes == old(self).bytes + n,
    {
        self.bytes = self.bytes + (n as u64);
    }
}

/// Concatenation of the chunks of one body, in order.
pub open spec fn flatten_chunks(chunks: Seq<Vec<u8>>) -> Seq<u8>
    decreases chunks.len(),
{
    if chunks.len() == 0 {
        Seq::empty()
    } else {
        chunks[0]@ + flatten_chunks(chunks.drop_first())
    }
}

/// Appending one chunk appends exactly its bytes.
pub proof fn lemma_flatten_chunks_push(chunks: Seq<Vec<u8>>, piece: Vec<u8>)
    ensures
        flatten_chunks(chunks.push(piece)) == flatten_chunks(chunks) + piece@,
    decreases chunks.len(),
{
    if chunks.len() == 0 {
        let p = chunks.push(piece);
        assert(p[0] == piece);
        assert(p.drop_first() =~= Seq::<Vec<u8>>::empty());
        assert(flatten_chunks(p.drop_first()) == Seq::<u8>::empty());
        assert(flatten_chunks(p) == piece@ + flatten_chunks(p.drop_first()));
        assert(flatten_chunks(chunks.push(piece)) =~= flatten_chunks(chunks) + piece@);
    } else {
        lemma_flatten_chunks_push(chunks.drop_first(), piece);
        assert(chunks.push(piece).drop_first() =~= chunks.drop_first().push(piece));
        assert(flatten_chunks(chunks.push(piece)) =~= flatten_chunks(chunks) + piece@);
    }
}

/// Taking one more chunk extends the flattened prefix by that chunk.
pub proof fn lemma_flatten_chunks_take_snoc(chunks: Seq<Vec<u8>>, i: int)
    requires
        0 <= i < chunks.len(),
    ensures
        flatten_chunks(chunks.take(i + 1)) == flatten_chunks(chunks.take(i)) + chunks[i]@,
    decreases i,
{
    if i == 0 {
        assert(chunks.take(1).drop_first() =~= Seq::<Vec<u8>>::empty());
        assert(chunks.take(0) =~= Seq::<Vec<u8>>::empty());
        assert(flatten_chunks(chunks.take(1)) =~= flatten_chunks(chunks.take(0)) + chunks[0]@);
    } else {
        let rest = chunks.drop_first();
        lemma_flatten_chunks_take_snoc(rest, i - 1);
        assert(chunks.take(i + 1).drop_first() =~= rest.take(i));
        assert(chunks.take(i).drop_first() =~= rest.take(i - 1));
        assert(flatten_chunks(chunks.take(i + 1)) =~= flatten_chunks(chunks.take(i)) + chunks[i]@);
    }
}

/// A flattened prefix is never longer than the whole flattened body.
pub proof fn lemma_flatten_chunks_prefix_len(chunks: Seq<Vec<u8>>, i: int)
    requires
        0 <= i <= chunks.len(),
    ensures
        flatten_chunks(chunks.take(i)).len() <= flatten_chunks(chunks).len(),
    decreases chunks.len() - i,
{
    if i == chunks.len() {
        assert(chunks.take(i) =~= chunks);
    } else {
        lemma_flatten_chunks_take_snoc(chunks, i);
        lemma_flatten_chunks_prefix_len(chunks, i + 1);
    }
}

/// Cuts a body into fixed-size chunks: every chunk but the last holds
/// exactly `chunk_size` bytes, no chunk is empty, and together they hold the
/// body byte-for-byte.
#[verifier::loop_isolation(false)]
pub fn split_into_chunks(body: &Vec<u8>, chunk_size: usize) -> (chunks: Vec<Vec<u8>>)
    requires
        chunk_size > 0,
    ensures
        flatten_chunks(chunks@) == body@,
        forall|i: int| 0 <= i < chunks@.len() ==> 0 < (#[trigger] chunks@[i])@.len() <= chunk_size,
        forall|i: int| 0 <= i < chunks@.len() - 1 ==> (#[trigger] chunks@[i])@.len() == chunk_size,
{
    let mut chunks: Vec<Vec<u8>> = Vec::new();
    let mut pos: usize = 0;
    proof {
        assert(flatten_chunks(chunks@) =~= body@.take(0));
    }
    while pos < body.len()
        invariant
            pos <= body@.len(),
            flatten_chunks(chunks@) == body@.take(pos as int),
            forall|i: int| 0 <= i < chunks@.len() ==> 0 < (#[trigger] chunks@[i])@.len() <= chunk_size,
            forall|i: int| 0 <= i < chunks@.len() - 1 ==> (#[trigger] chunks@[i])@.len() == chunk_size,
            pos < body@.len() ==> (forall|i: int|
                0 <= i < chunks@.len() ==> (#[trigger] chunks@[i])@.len() == chunk_size),
        decreases body@.len() - pos,
    {
        let remaining = body.len() - pos;
        let take_n = if remaining < chunk_size {
            remaining
        } else {
            chunk_size
        };
        let end = pos + take_n;
        let piece = slice_to_vec(slice_subrange(body.as_slice(), pos, end));
        proof {
            lemma_flatten_chunks_push(chunks@, piece);
            assert(flatten_chunks(chunks@.push(piece)) =~= body@.take(end as int));
        }
        chunks.push(piece);
        pos = end;
    }
    proof {
        assert(body@.take(body@.len() as int) =~= body@);
    }
    chunks
}

/// The streaming read loop against an in-memory source: consumes the chunks
/// in order, appends each to the output image, and accounts every byte. The
/// image holds exactly the flattened chunks and the reported count is its
/// length.
#[verifier::loop_isolation(false)]
pub fn assemble_chunks(chunks: &Vec<Vec<u8>>) -> (r: (Vec<u8>, u64))
    requires
        flatten_chunks(chunks@).len() <= u64::MAX,
    ensures
        r.0@ == flatten_chunks(chunks@),
        r.1 == flatten_chunks(chunks@).len(),
{
    let mut out: Vec<u8> = Vec::new();
    let mut t = Transfer::new();
    let mut i: usize = 0;
    proof {
        assert(flatten_chunks(chunks@.take(0)) =~= Seq::<u8>::empty());
    }
    while i < chunks.len()
        invariant
            i <= chunks@.len(),
            out@ == flatten_chunks(chunks@.take(i as int)),
            t.bytes == out@.len(),
        decreases chunks@.len() - i,
    {
        let piece: &Vec<u8> = &chunks[i];
        let mut copy = slice_to_vec(piece.as_slice());
        proof {
            lemma_flatten_chunks_take_snoc(chunks@, i as int);
            lemma_flatten_chunks_prefix_len(chunks@, i + 1);
        }
        t.record_chunk(copy.len());
        out.append(&mut copy);
        i = i + 1;
    }
    proof {
        assert(chunks@.take(chunks@.len() as int) =~= chunks@);
    }
    (out, t.bytes)
}

/// Streaming correctness: a body of any size pushed through fixed-size
/// chunks yields an image that matches the source byte-for-byte, with the
/// reported byte count equal to the body's size.
pub fn stream_copy(body: &Vec<u8>, chunk_size: usize) -> (r: (Vec<u8>, u64))
    requires
        chunk_size > 0,
    ensures
        r.0@ == body@,
        r.1 == body@.len(),
{
    let chunks = split_into_chunks(body, chunk_size);
    proof {
        broadcast use vstd::std_specs::vec::axiom_spec_len;

        assert(vstd::std_specs::vec::spec_vec_len(body) == body@.len());
    }
    assemble_chunks(&chunks)
}

/// The reported outcome of one repository's download attempt.
#[derive(Debug, Clone, Copy, PartialEq, Eq, Structural)]
pub enum Outcome {
    /// The archive file already existed; no network call was made.
    Skipped,
    /// The archive was fetched and written, transferring this many bytes.
    Downloaded { bytes: u64 },
    /// The attempt failed; the failure is recorded and the run continues.
    Failed { error: BackupError },
}

} // verus!
