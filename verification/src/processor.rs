use vstd::prelude::*;
use vstd::arithmetic::div_mod::lemma_div_plus_one;
use vstd::arithmetic::div_mod::lemma_fundamental_div_mod;
use vstd::string::StrSliceExecFns;
use vstd::string::StringExecFns;

use crate::classify::dir_line_spec;
use crate::classify::file_line_spec;
use crate::classify::process_dirs;
use crate::classify::process_files;
use crate::config::folder_pattern_spec;
use crate::config::Config;
use crate::config::FilesystemType;
use crate::config::Mode;
use crate::contexts::ContextSet;
use crate::progress::ProgressTracker;
use crate::regex_utils::escape_regex;
use crate::regex_utils::escape_spec;
use crate::strutil::contains_seq;
use crate::strutil::contains_sub;
use crate::strutil::trim_end_spec;
use crate::strutil::trim_end_str;

verus! {

/// One entry of the collected tree walk: a relative path and whether
/// the filesystem holds a file (not a directory) there.
pub struct PathEntry {
    pub path: String,
    pub is_file: bool,
}

/// The mathematical shadow of a `PathEntry`.
pub struct PathEntryV {
    pub path: Seq<char>,
    pub is_file: bool,
}

impl View for PathEntry {
    type V = PathEntryV;

    open spec fn view(&self) -> PathEntryV {
        PathEntryV { path: self.path@, is_file: self.is_file }
    }
}

impl Clone for PathEntry {
    fn clone(&self) -> (r: Self)
        ensures
            r == *self,
    {
        PathEntry { path: self.path.clone(), is_file: self.is_file }
    }
}

/// The views of a sequence of entries.
pub open spec fn entry_views(s: Seq<PathEntry>) -> Seq<PathEntryV> {
    s.map_values(|e: PathEntry| e@)
}

/// The exact-match key of a path's plain pattern: the candidate line
/// prefix `/<partition>/<escaped path>`, with trailing whitespace
/// trimmed as the existing entries were.
pub open spec fn full_key_spec(path: Seq<char>, partition: Seq<char>) -> Seq<char> {
    trim_end_spec("/"@ + partition + "/"@ + escape_spec(path))
}

/// The exact-match key of a path's folder pattern: as `full_key_spec`
/// with the filesystem type's folder suffix appended.
pub open spec fn folder_key_spec(
    path: Seq<char>,
    partition: Seq<char>,
    t: FilesystemType,
) -> Seq<char> {
    trim_end_spec("/"@ + partition + "/"@ + escape_spec(path) + folder_pattern_spec(t))
}

/// A path is missing when neither its plain key nor its folder key is
/// already present among the existing context patterns.
pub open spec fn is_missing_spec(
    path: Seq<char>,
    partition: Seq<char>,
    t: FilesystemType,
    ctx: Set<Seq<char>>,
) -> bool {
    !ctx.contains(full_key_spec(path, partition)) && !ctx.contains(
        folder_key_spec(path, partition, t),
    )
}

/// Decides whether `path` is missing from the existing context set.
pub fn entry_is_missing(
    path: &str,
    partition: &str,
    fstype: FilesystemType,
    existing: &ContextSet,
) -> (r: bool)
    ensures
        r == is_missing_spec(path@, partition@, fstype, existing@),
{
    let escaped = escape_regex(path);
    let mut cand = String::from_str("/");
    cand.append(partition);
    cand.append("/");
    cand.append(escaped.as_str());
    proof {
        assert(cand@ =~= "/"@ + partition@ + "/"@ + escape_spec(path@));
    }
    let full_key = trim_end_str(cand.as_str());
    cand.append(fstype.folder_pattern());
    proof {
        assert(cand@ =~= "/"@ + partition@ + "/"@ + escape_spec(path@) + folder_pattern_spec(
            fstype,
        ));
    }
    let folder_key = trim_end_str(cand.as_str());
    !existing.contains(&full_key) && !existing.contains(&folder_key)
}

/// How many of the collected paths are missing: empty paths are
/// skipped, every other path counts when `is_missing_spec` holds.
pub open spec fn count_missing_spec(
    paths: Seq<Seq<char>>,
    partition: Seq<char>,
    t: FilesystemType,
    ctx: Set<Seq<char>>,
) -> nat
    decreases paths.len(),
{
    if paths.len() == 0 {
        0
    } else {
        count_missing_spec(paths.drop_last(), partition, t, ctx) + (if paths.last().len() > 0
            && is_missing_spec(paths.last(), partition, t, ctx) {
            1nat
        } else {
            0nat
        })
    }
}

/// Counts the paths whose context entry is still missing; the count
/// is what the run reports before generating anything.
pub fn count_missing_entries(
    files_to_process: &Vec<String>,
    config: &Config,
    partition: &str,
    existing: &ContextSet,
) -> (n: usize)
    ensures
        n == count_missing_spec(
            files_to_process.deep_view(),
            partition@,
            config.fstype,
            existing@,
        ),
{
    let ghost all = files_to_process.deep_view();
    proof {
        assert(forall|k: int|
            0 <= k < all.len() ==> all[k] == files_to_process@[k]@);
    }
    let mut n: usize = 0;
    let mut i: usize = 0;
    while i < files_to_process.len()
        invariant
            i <= all.len(),
            n <= i,
            all == files_to_process.deep_view(),
            all.len() == files_to_process@.len(),
            forall|k: int| 0 <= k < all.len() ==> all[k] == files_to_process@[k]@,
            n == count_missing_spec(all.take(i as int), partition@, config.fstype, existing@),
        decreases all.len() - i,
    {
        let path = &files_to_process[i];
        proof {
            let pre1 = all.take(i + 1);
            assert(pre1.drop_last() =~= all.take(i as int));
            assert(pre1.last() == all[i as int]);
        }
        if !path.as_str().is_empty() && entry_is_missing(
            path.as_str(),
            partition,
            config.fstype,
            existing,
        ) {
            n += 1;
        }
        i += 1;
    }
    proof {
        assert(all.take(all.len() as int) =~= all);
    }
    n
}

/// The context line one entry contributes: `None` when the path is
/// empty or its entry already exists, the classified line otherwise.
pub open spec fn entry_line_opt(
    e: PathEntryV,
    partition: Seq<char>,
    t: FilesystemType,
    ctx: Set<Seq<char>>,
) -> Option<Seq<char>> {
    if e.path.len() > 0 && is_missing_spec(e.path, partition, t, ctx) {
        Some(
            if e.is_file {
                file_line_spec(escape_spec(e.path), partition)
            } else {
                dir_line_spec(escape_spec(e.path), partition, t)
            },
        )
    } else {
        None
    }
}

/// The ordered lines a chunk of entries produces.
pub open spec fn chunk_lines_spec(
    entries: Seq<PathEntryV>,
    partition: Seq<char>,
    t: FilesystemType,
    ctx: Set<Seq<char>>,
) -> Seq<Seq<char>>
    decreases entries.len(),
{
    if entries.len() == 0 {
        Seq::empty()
    } else {
        chunk_lines_spec(entries.drop_last(), partition, t, ctx) + (match entry_line_opt(
            entries.last(),
            partition,
            t,
            ctx,
        ) {
            Some(l) => seq![l],
            None => Seq::<Seq<char>>::empty(),
        })
    }
}

/// Classifies one collected entry: the generated context line when
/// the entry is missing, `None` otherwise.
pub fn classify_entry(
    path: &str,
    is_file: bool,
    partition: &str,
    fstype: FilesystemType,
    existing: &ContextSet,
) -> (r: Option<String>)
    ensures
        match r {
            Some(l) => entry_line_opt(
                PathEntryV { path: path@, is_file },
                partition@,
                fstype,
                existing@,
            ) == Some(l@),
            None => entry_line_opt(
                PathEntryV { path: path@, is_file },
                partition@,
                fstype,
                existing@,
            ) is None,
        },
{
    if path.is_empty() {
        return None;
    }
    if !entry_is_missing(path, partition, fstype, existing) {
        return None;
    }
    let escaped = escape_regex(path);
    if is_file {
        Some(process_files(escaped.as_str(), partition))
    } else {
        Some(process_dirs(escaped.as_str(), partition, &fstype))
    }
}

/// Works through one chunk: pushes the context line of every missing
/// entry onto `results`, in the chunk's order, and counts every entry
/// on the shared progress tracker, produced or not.
pub fn process_chunk(
    chunk: &Vec<PathEntry>,
    config: &Config,
    partition: &str,
    existing: &ContextSet,
    progress: &mut ProgressTracker,
    results: &mut Vec<String>,
)
    requires
        old(progress).current + chunk@.len() <= old(progress).total,
    ensures
        final(results).deep_view() == old(results).deep_view() + chunk_lines_spec(
            entry_views(chunk@),
            partition@,
            config.fstype,
            existing@,
        ),
        final(progress).current == old(progress).current + chunk@.len(),
        final(progress).total == old(progress).total,
        final(progress).show_progress == old(progress).show_progress,
{
    let ghost evs = entry_views(chunk@);
    let mut i: usize = 0;
    while i < chunk.len()
        invariant
            i <= chunk@.len(),
            evs == entry_views(chunk@),
            evs.len() == chunk@.len(),
            progress.current == old(progress).current + i,
            progress.current + (chunk@.len() - i) <= progress.total,
            progress.total == old(progress).total,
            progress.show_progress == old(progress).show_progress,
            results.deep_view() == old(results).deep_view() + chunk_lines_spec(
                evs.take(i as int),
                partition@,
                config.fstype,
                existing@,
            ),
        decreases chunk@.len() - i,
    {
        proof {
            let pre1 = evs.take(i + 1);
            assert(pre1.drop_last() =~= evs.take(i as int));
            assert(pre1.last() == evs[i as int]);
            assert(evs[i as int] == chunk@[i as int]@);
        }
        let e = &chunk[i];
        let ghost before = results.deep_view();
        match classify_entry(e.path.as_str(), e.is_file, partition, config.fstype, existing) {
            Some(line) => {
                results.push(line);
                proof {
                    assert(results.deep_view() =~= before.push(line@));
                }
            },
            None => {},
        }
        proof {
            assert(results.deep_view() =~= old(results).deep_view() + chunk_lines_spec(
                evs.take(i + 1),
                partition@,
                config.fstype,
                existing@,
            ));
        }
        progress.increment();
        i += 1;
    }
    proof {
        assert(evs.take(evs.len() as int) =~= evs);
    }
}

/// The chunk size a run uses: the ceiling of `total / cores`.
pub open spec fn chunk_size_spec(total: nat, cores: nat) -> nat
    recommends
        cores > 0,
{
    ((total + cores - 1) / (cores as int)) as nat
}

/// The concatenation of the chunks, in chunk order.
pub open spec fn concat_chunks(chunks: Seq<Vec<PathEntry>>) -> Seq<PathEntry>
    decreases chunks.len(),
{
    if chunks.len() == 0 {
        Seq::empty()
    } else {
        concat_chunks(chunks.drop_last()) + chunks.last()@
    }
}

proof fn lemma_concat_chunks_push(chunks: Seq<Vec<PathEntry>>, c: Vec<PathEntry>)
    ensures
        concat_chunks(chunks.push(c)) == concat_chunks(chunks) + c@,
{
    assert(chunks.push(c).drop_last() =~= chunks);
    assert(chunks.push(c).last() == c);
}

/// Splits the collected entries into at most `cores` contiguous
/// chunks of at most `ceil(total / cores)` entries each, whose
/// concatenation in order is exactly the input; an empty input yields
/// no chunks.
pub fn make_chunks(files: &Vec<PathEntry>, cores: usize) -> (chunks: Vec<Vec<PathEntry>>)
    requires
        cores >= 1,
    ensures
        chunks@.len() <= cores,
        forall|j: int|
            0 <= j < chunks@.len() ==> #[trigger] chunks@[j]@.len() <= chunk_size_spec(
                files@.len(),
                cores as nat,
            ),
        concat_chunks(chunks@) == files@,
        files@.len() == 0 ==> chunks@.len() == 0,
{
    let total = files.len();
    if total == 0 {
        let chunks: Vec<Vec<PathEntry>> = Vec::new();
        proof {
            assert(concat_chunks(chunks@) =~= files@);
        }
        return chunks;
    }
    let cs = (total - 1) / cores + 1;
    proof {
        lemma_div_plus_one(total - 1, cores as int);
        assert(cs == chunk_size_spec(total as nat, cores as nat));
        lemma_fundamental_div_mod(total - 1, cores as int);
        assert(cs * cores as int >= total) by (nonlinear_arith)
            requires
                cs == (total - 1) / (cores as int) + 1,
                total - 1 == (cores as int) * ((total - 1) / (cores as int)) + (total - 1) % (
                cores as int),
                0 <= (total - 1) % (cores as int) < cores as int,
                cores >= 1,
                total >= 1,
        ;
    }
    let mut chunks: Vec<Vec<PathEntry>> = Vec::new();
    let mut cur: Vec<PathEntry> = Vec::new();
    let mut i: usize = 0;
    proof {
        assert(concat_chunks(chunks@) + cur@ =~= files@.take(0));
    }
    while i < total
        invariant
            total == files@.len(),
            cores >= 1,
            i <= total,
            cs >= 1,
            cs == chunk_size_spec(total as nat, cores as nat),
            cs * cores as int >= total,
            cur@.len() < cs,
            forall|j: int| 0 <= j < chunks@.len() ==> #[trigger] chunks@[j]@.len() == cs,
            chunks@.len() * cs + cur@.len() == i,
            concat_chunks(chunks@) + cur@ == files@.take(i as int),
        decreases total - i,
    {
        let e = (&files[i]).clone();
        cur.push(e);
        proof {
            assert(files@.take(i + 1) =~= files@.take(i as int).push(files@[i as int]));
            assert(concat_chunks(chunks@) + cur@ =~= files@.take(i + 1));
        }
        if cur.len() == cs {
            let full = cur;
            cur = Vec::new();
            let ghost pre = chunks@;
            let ghost fullv = full@;
            chunks.push(full);
            proof {
                lemma_concat_chunks_push(pre, chunks@.last());
                assert(concat_chunks(chunks@) == concat_chunks(pre) + fullv);
                assert(concat_chunks(chunks@) + cur@ =~= files@.take(i + 1));
                assert(chunks@.len() * cs == pre.len() * cs + cs) by (nonlinear_arith)
                    requires
                        chunks@.len() == pre.len() + 1,
                ;
            }
        }
        i += 1;
    }
    proof {
        assert(files@.take(total as int) =~= files@);
    }
    if cur.len() > 0 {
        let ghost pre = chunks@;
        chunks.push(cur);
        proof {
            lemma_concat_chunks_push(pre, chunks@.last());
            assert(concat_chunks(chunks@) =~= files@);
            assert(pre.len() * cs < total);
            assert(pre.len() < cores) by (nonlinear_arith)
                requires
                    pre.len() * cs < total,
                    cs * cores as int >= total,
                    cs >= 1,
            ;
        }
    } else {
        proof {
            assert(concat_chunks(chunks@) =~= files@);
            assert(chunks@.len() * cs == total);
            assert(chunks@.len() <= cores) by (nonlinear_arith)
                requires
                    chunks@.len() * cs == total,
                    cs * cores as int >= total,
                    cs >= 1,
            ;
        }
    }
    chunks
}

/// Whether the collector keeps a relative path: the root itself
/// (the empty path) never, and in Bin mode only paths mentioning a
/// `/bin/` directory.
pub open spec fn keep_path_spec(path: Seq<char>, mode: Mode) -> bool {
    path.len() > 0 && match mode {
        Mode::All => true,
        Mode::Bin => contains_seq(path, "/bin/"@),
    }
}

/// Decides whether the tree collector keeps one relative path.
pub fn keep_path(path: &str, mode: &Mode) -> (r: bool)
    ensures
        r == keep_path_spec(path@, *mode),
{
    if path.is_empty() {
        return false;
    }
    match mode {
        Mode::All => true,
        Mode::Bin => contains_sub(path, "/bin/"),
    }
}

/// The sub-sequence of collected paths the mode keeps, in order.
pub open spec fn filter_paths_spec(paths: Seq<Seq<char>>, mode: Mode) -> Seq<Seq<char>>
    decreases paths.len(),
{
    if paths.len() == 0 {
        Seq::empty()
    } else {
        filter_paths_spec(paths.drop_last(), mode) + (if keep_path_spec(paths.last(), mode) {
            seq![paths.last()]
        } else {
            Seq::<Seq<char>>::empty()
        })
    }
}

/// Keeps, in their walk order, the relative paths the mode selects.
pub fn filter_paths(paths: &Vec<String>, mode: &Mode) -> (r: Vec<String>)
    ensures
        r.deep_view() == filter_paths_spec(paths.deep_view(), *mode),
{
    let ghost all = paths.deep_view();
    proof {
        assert(forall|k: int| 0 <= k < all.len() ==> all[k] == paths@[k]@);
    }
    let mut r: Vec<String> = Vec::new();
    let mut i: usize = 0;
    while i < paths.len()
        invariant
            i <= all.len(),
            all == paths.deep_view(),
            all.len() == paths@.len(),
            forall|k: int| 0 <= k < all.len() ==> all[k] == paths@[k]@,
            r.deep_view() == filter_paths_spec(all.take(i as int), *mode),
        decreases all.len() - i,
    {
        proof {
            let pre1 = all.take(i + 1);
            assert(pre1.drop_last() =~= all.take(i as int));
            assert(pre1.last() == all[i as int]);
        }
        let ghost before = r.deep_view();
        if keep_path(paths[i].as_str(), mode) {
            r.push(paths[i].clone());
            proof {
                assert(r.deep_view() =~= before.push(all[i as int]));
            }
        }
        proof {
            assert(r.deep_view() =~= filter_paths_spec(all.take(i + 1), *mode));
        }
        i += 1;
    }
    proof {
        assert(all.take(all.len() as int) =~= all);
    }
    r
}

/// The directory name of the partition root: trailing slashes are
/// ignored, the last slash-separated component is taken, and a path
/// without one names the partition `unknown`.
pub open spec fn no_trailing_slash_len(s: Seq<char>) -> nat
    decreases s.len(),
{
    if s.len() > 0 && s.last() == '/' {
        no_trailing_slash_len(s.drop_last())
    } else {
        s.len()
    }
}

/// The length of the trailing run of non-slash characters of `s`.
pub open spec fn last_component_len(s: Seq<char>) -> nat
    decreases s.len(),
{
    if s.len() > 0 && s.last() != '/' {
        1 + last_component_len(s.drop_last())
    } else {
        0
    }
}

/// The partition name a root directory path yields.
pub open spec fn partition_name_spec(s: Seq<char>) -> Seq<char> {
    let t = s.take(no_trailing_slash_len(s) as int);
    let c = t.skip(t.len() - last_component_len(t));
    if c.len() == 0 {
        "unknown"@
    } else {
        c
    }
}

proof fn lemma_no_trailing_slash_len_le(s: Seq<char>)
    ensures
        no_trailing_slash_len(s) <= s.len(),
    decreases s.len(),
{
    if s.len() > 0 && s.last() == '/' {
        lemma_no_trailing_slash_len_le(s.drop_last());
    }
}

proof fn lemma_last_component_len(s: Seq<char>, a: int)
    requires
        0 <= a <= s.len(),
        forall|k: int| a <= k < s.len() ==> s[k] != '/',
        a == 0 || s[a - 1] == '/',
    ensures
        last_component_len(s) == s.len() - a,
    decreases s.len(),
{
    if s.len() > a {
        assert(s.last() != '/');
        assert(forall|k: int|
            a <= k < s.drop_last().len() ==> s.drop_last()[k] == s[k]);
        if a > 0 {
            assert(s.drop_last()[a - 1] == s[a - 1]);
        }
        lemma_last_component_len(s.drop_last(), a);
    } else {
        if s.len() > 0 {
            assert(s[a - 1] == '/');
            assert(s.last() == '/');
        }
    }
}

/// Extracts the partition name from the extracted-partition root
/// path: its last slash-separated component, or `unknown` when the
/// path ends without one.
pub fn get_partition_name(extracted_dir: &str) -> (r: String)
    ensures
        r@ == partition_name_spec(extracted_dir@),
{
    let s = extracted_dir;
    let len = s.unicode_len();
    let mut end = len;
    proof {
        assert(s@.take(len as int) =~= s@);
    }
    while end > 0 && s.get_char(end - 1) == '/'
        invariant
            end <= len,
            len == s@.len(),
            no_trailing_slash_len(s@) == no_trailing_slash_len(s@.take(end as int)),
        decreases end,
    {
        proof {
            let pre = s@.take(end as int);
            assert(pre.last() == s@[end - 1]);
            assert(pre.drop_last() =~= s@.take(end as int - 1));
        }
        end -= 1;
    }
    proof {
        let pre = s@.take(end as int);
        if end > 0 {
            assert(pre.last() == s@[end - 1]);
        }
        assert(no_trailing_slash_len(pre) == end);
        lemma_no_trailing_slash_len_le(s@);
    }
    let mut start = end;
    while start > 0 && s.get_char(start - 1) != '/'
        invariant
            start <= end <= len,
            len == s@.len(),
            forall|k: int| start <= k < end ==> s@[k] != '/',
        decreases start,
    {
        start -= 1;
    }
    proof {
        let t = s@.take(end as int);
        assert(forall|k: int| start <= k < end ==> t[k] == s@[k]);
        if start > 0 {
            assert(t[start as int - 1] == s@[start - 1]);
        }
        lemma_last_component_len(t, start as int);
    }
    if start == end {
        let r = "unknown".to_owned();
        return r;
    }
    let c = s.substring_char(start, end);
    proof {
        assert(c@ =~= partition_name_spec(s@));
    }
    c.to_owned()
}


/// Splitting a sequence of entries anywhere splits its generated
/// lines the same way.
pub proof fn lemma_chunk_lines_concat(
    a: Seq<PathEntryV>,
    b: Seq<PathEntryV>,
    partition: Seq<char>,
    t: FilesystemType,
    ctx: Set<Seq<char>>,
)
    ensures
        chunk_lines_spec(a + b, partition, t, ctx) == chunk_lines_spec(a, partition, t, ctx)
            + chunk_lines_spec(b, partition, t, ctx),
    decreases b.len(),
{
    if b.len() == 0 {
        assert(a + b =~= a);
        assert(chunk_lines_spec(a + b, partition, t, ctx) =~= chunk_lines_spec(
            a,
            partition,
            t,
            ctx,
        ) + chunk_lines_spec(b, partition, t, ctx));
    } else {
        assert((a + b).drop_last() =~= a + b.drop_last());
        assert((a + b).last() == b.last());
        lemma_chunk_lines_concat(a, b.drop_last(), partition, t, ctx);
        assert(chunk_lines_spec(a + b, partition, t, ctx) =~= chunk_lines_spec(
            a,
            partition,
            t,
            ctx,
        ) + chunk_lines_spec(b, partition, t, ctx));
    }
}

/// The lines the workers hand back, concatenated in chunk order.
pub open spec fn lines_of_chunks(
    chunks: Seq<Vec<PathEntry>>,
    partition: Seq<char>,
    t: FilesystemType,
    ctx: Set<Seq<char>>,
) -> Seq<Seq<char>>
    decreases chunks.len(),
{
    if chunks.len() == 0 {
        Seq::empty()
    } else {
        lines_of_chunks(chunks.drop_last(), partition, t, ctx) + chunk_lines_spec(
            entry_views(chunks.last()@),
            partition,
            t,
            ctx,
        )
    }
}

/// Aggregating the per-chunk results in chunk order yields exactly
/// the lines of a single sequential pass over the concatenated
/// entries: chunking the work changes nothing about the output.
pub proof fn lemma_chunked_equals_sequential(
    chunks: Seq<Vec<PathEntry>>,
    partition: Seq<char>,
    t: FilesystemType,
    ctx: Set<Seq<char>>,
)
    ensures
        lines_of_chunks(chunks, partition, t, ctx) == chunk_lines_spec(
            entry_views(concat_chunks(chunks)),
            partition,
            t,
            ctx,
        ),
    decreases chunks.len(),
{
    if chunks.len() == 0 {
        assert(entry_views(concat_chunks(chunks)) =~= Seq::<PathEntryV>::empty());
    } else {
        lemma_chunked_equals_sequential(chunks.drop_last(), partition, t, ctx);
        assert(entry_views(concat_chunks(chunks)) =~= entry_views(
            concat_chunks(chunks.drop_last()),
        ) + entry_views(chunks.last()@));
        lemma_chunk_lines_concat(
            entry_views(concat_chunks(chunks.drop_last())),
            entry_views(chunks.last()@),
            partition,
            t,
            ctx,
        );
    }
}

} // verus!
