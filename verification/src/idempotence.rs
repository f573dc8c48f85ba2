use vstd::prelude::*;

use crate::classify::dir_label_spec;
use crate::classify::dir_line_spec;
use crate::classify::file_label_spec;
use crate::classify::file_line_spec;
use crate::config::folder_pattern_spec;
use crate::config::FilesystemType;
use crate::contexts::tokens_of_lines;
use crate::processor::chunk_lines_spec;
use crate::processor::count_missing_spec;
use crate::processor::entry_line_opt;
use crate::processor::folder_key_spec;
use crate::processor::full_key_spec;
use crate::processor::is_missing_spec;
use crate::processor::PathEntryV;
use crate::regex_utils::escape_spec;
use crate::regex_utils::lemma_escape_no_ws;
use crate::strutil::first_token_opt;
use crate::strutil::is_ws;
use crate::strutil::lemma_no_ws_concat;
use crate::strutil::lemma_no_ws_trim;
use crate::strutil::lemma_token_len;
use crate::strutil::lemma_ws_prefix_len;
use crate::strutil::no_ws;

verus! {

/// The key under which one entry's generated line is indexed on a
/// later run: the plain key for a file, the folder key for a
/// directory.
pub open spec fn entry_key_spec(e: PathEntryV, partition: Seq<char>, t: FilesystemType) -> Seq<
    char,
> {
    if e.is_file {
        full_key_spec(e.path, partition)
    } else {
        folder_key_spec(e.path, partition, t)
    }
}

/// The line an entry would be emitted as, were it missing.
pub open spec fn entry_line_spec(e: PathEntryV, partition: Seq<char>, t: FilesystemType) -> Seq<
    char,
> {
    if e.is_file {
        file_line_spec(escape_spec(e.path), partition)
    } else {
        dir_line_spec(escape_spec(e.path), partition, t)
    }
}

/// The first whitespace-delimited token of a generated context line
/// is exactly the key the entry is later looked up under, whenever
/// the path and the partition name hold no whitespace.
pub proof fn lemma_emitted_line_token(e: PathEntryV, partition: Seq<char>, t: FilesystemType)
    requires
        no_ws(e.path),
        no_ws(partition),
    ensures
        first_token_opt(entry_line_spec(e, partition, t)) == Some(
            entry_key_spec(e, partition, t),
        ),
{
    reveal_strlit("/");
    reveal_strlit(" ");
    reveal_strlit("(/.*)?");
    reveal_strlit("");
    let esc = escape_spec(e.path);
    lemma_escape_no_ws(e.path);
    assert(no_ws("/"@)) by {
        assert("/"@[0] == '/');
    }
    assert(no_ws(folder_pattern_spec(t))) by {
        match t {
            FilesystemType::Ext4 => {
                let p = "(/.*)?"@;
                assert(p.len() == 6);
                assert(!is_ws(p[0]) && !is_ws(p[1]) && !is_ws(p[2]) && !is_ws(p[3]) && !is_ws(
                    p[4],
                ) && !is_ws(p[5]));
            },
            _ => {
                assert(folder_pattern_spec(t).len() == 0);
            },
        }
    }
    let keypart = if e.is_file {
        "/"@ + partition + "/"@ + esc
    } else {
        "/"@ + partition + "/"@ + esc + folder_pattern_spec(t)
    };
    let label = if e.is_file {
        file_label_spec("/"@ + esc, partition)
    } else {
        dir_label_spec("/"@ + esc, partition)
    };
    lemma_no_ws_concat("/"@, partition);
    lemma_no_ws_concat("/"@ + partition, "/"@);
    lemma_no_ws_concat("/"@ + partition + "/"@, esc);
    lemma_no_ws_concat("/"@ + partition + "/"@ + esc, folder_pattern_spec(t));
    assert(no_ws(keypart));
    let line = entry_line_spec(e, partition, t);
    assert(line == keypart + " "@ + label);
    assert(keypart.len() >= 1);
    assert(line[0] == keypart[0]);
    assert(keypart[0] == '/');
    lemma_ws_prefix_len(line, 0);
    assert(line[keypart.len() as int] == " "@[0]) by {
        assert((keypart + " "@)[keypart.len() as int] == " "@[0]);
        assert(line[keypart.len() as int] == (keypart + " "@)[keypart.len() as int]);
    }
    assert(is_ws(' '));
    assert forall|k: int| 0 <= k < keypart.len() implies !is_ws(line[k]) by {
        assert(line[k] == keypart[k]);
    }
    lemma_token_len(line, keypart.len() as int);
    assert(line.skip(0) =~= line);
    assert(first_token_opt(line) == Some(line.subrange(0, keypart.len() as int)));
    assert(line.subrange(0, keypart.len() as int) =~= keypart);
    lemma_no_ws_trim(keypart);
}

/// A path whose plain or folder key is already present is never
/// emitted again: the run yields no line for it.
pub proof fn lemma_present_not_emitted(
    e: PathEntryV,
    partition: Seq<char>,
    t: FilesystemType,
    ctx: Set<Seq<char>>,
)
    requires
        ctx.contains(full_key_spec(e.path, partition)) || ctx.contains(
            folder_key_spec(e.path, partition, t),
        ),
    ensures
        entry_line_opt(e, partition, t, ctx) is None,
{
}

/// Whatever is not missing against a context set is not missing
/// against any larger one.
pub proof fn lemma_missing_monotone(
    path: Seq<char>,
    partition: Seq<char>,
    t: FilesystemType,
    c1: Set<Seq<char>>,
    c2: Set<Seq<char>>,
)
    requires
        c1.subset_of(c2),
        !is_missing_spec(path, partition, t, c1),
    ensures
        !is_missing_spec(path, partition, t, c2),
{
}

proof fn lemma_line_in_output(
    entries: Seq<PathEntryV>,
    partition: Seq<char>,
    t: FilesystemType,
    ctx: Set<Seq<char>>,
    i: int,
)
    requires
        0 <= i < entries.len(),
        entry_line_opt(entries[i], partition, t, ctx) is Some,
    ensures
        chunk_lines_spec(entries, partition, t, ctx).contains(
            entry_line_opt(entries[i], partition, t, ctx)->Some_0,
        ),
    decreases entries.len(),
{
    let lines = chunk_lines_spec(entries, partition, t, ctx);
    let pre = chunk_lines_spec(entries.drop_last(), partition, t, ctx);
    let l = entry_line_opt(entries[i], partition, t, ctx)->Some_0;
    if i == entries.len() - 1 {
        assert(entries.last() == entries[i]);
        assert(lines[pre.len() as int] == l);
    } else {
        assert(entries.drop_last()[i] == entries[i]);
        lemma_line_in_output(entries.drop_last(), partition, t, ctx, i);
        let j = choose|j: int| 0 <= j < pre.len() && pre[j] == l;
        assert(lines[j] == l);
    }
}

proof fn lemma_count_zero(
    paths: Seq<Seq<char>>,
    partition: Seq<char>,
    t: FilesystemType,
    ctx: Set<Seq<char>>,
)
    requires
        forall|i: int|
            0 <= i < paths.len() ==> (#[trigger] paths[i]).len() == 0 || !is_missing_spec(
                paths[i],
                partition,
                t,
                ctx,
            ),
    ensures
        count_missing_spec(paths, partition, t, ctx) == 0,
    decreases paths.len(),
{
    if paths.len() > 0 {
        assert(forall|i: int|
            0 <= i < paths.drop_last().len() ==> paths.drop_last()[i] == paths[i]);
        lemma_count_zero(paths.drop_last(), partition, t, ctx);
        assert(paths.last() == paths[paths.len() - 1]);
    }
}

/// Rerunning the generator is idempotent: once the lines of a run are
/// appended to the contexts file, a second run over the same entries
/// finds every one of its keys present and counts zero missing
/// entries. Stated for paths and partition names free of whitespace,
/// since the contexts file is keyed by whitespace-delimited tokens.
pub proof fn lemma_rerun_converges(
    entries: Seq<PathEntryV>,
    partition: Seq<char>,
    t: FilesystemType,
    ctx: Set<Seq<char>>,
)
    requires
        no_ws(partition),
        forall|i: int| 0 <= i < entries.len() ==> no_ws((#[trigger] entries[i]).path),
    ensures
        count_missing_spec(
            entries.map_values(|e: PathEntryV| e.path),
            partition,
            t,
            ctx.union(tokens_of_lines(chunk_lines_spec(entries, partition, t, ctx))),
        ) == 0,
{
    let lines = chunk_lines_spec(entries, partition, t, ctx);
    let ctx2 = ctx.union(tokens_of_lines(lines));
    let paths = entries.map_values(|e: PathEntryV| e.path);
    assert forall|i: int|
        0 <= i < paths.len() implies (#[trigger] paths[i]).len() == 0 || !is_missing_spec(
        paths[i],
        partition,
        t,
        ctx2,
    ) by {
        let e = entries[i];
        assert(paths[i] == e.path);
        if e.path.len() > 0 {
            if is_missing_spec(e.path, partition, t, ctx) {
                let l = entry_line_opt(e, partition, t, ctx)->Some_0;
                assert(l == entry_line_spec(e, partition, t));
                lemma_line_in_output(entries, partition, t, ctx, i);
                lemma_emitted_line_token(e, partition, t);
                let j = choose|j: int| 0 <= j < lines.len() && lines[j] == l;
                assert(first_token_opt(lines[j]) == Some(entry_key_spec(e, partition, t)));
                assert(tokens_of_lines(lines).contains(entry_key_spec(e, partition, t)));
                assert(ctx2.contains(entry_key_spec(e, partition, t)));
                assert(!is_missing_spec(e.path, partition, t, ctx2));
            } else {
                assert(ctx.subset_of(ctx2));
                lemma_missing_monotone(e.path, partition, t, ctx, ctx2);
            }
        }
    }
    lemma_count_zero(paths, partition, t, ctx2);
}

} // verus!
