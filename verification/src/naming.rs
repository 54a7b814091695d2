//! Names of the files that a conversion writes.
//!
//! A path is text with `/` between its parts. Separators at its end, and
//! parts at its end that are just `.`, do not count: the file name of
//! `clips/demo.mp4/` and of `clips/demo.mp4/.` is `demo.mp4`. A path that
//! ends in `..`, or in nothing once its end is left off, has no file name.
//!
//! Everything is named after a stem: the output path cut after the stem of
//! its file name, or the input path cut so where no output path is given.
//! A lone result is `<stem>.gif`. One of several is `<stem>_<NNN>.gif`,
//! counted from one, and what is still being worked on is
//! `<stem>.tmp_<NNNNNN>.gif`; these two lie beside the stem, in its
//! directory, also where separators follow the file name of the stem.

use crate::decimal::chars_of;
use crate::decimal::lemma_padded_is_injective;
use crate::decimal::lemma_padded_reads_back;
use crate::decimal::padded;
use crate::decimal::push_padded;
use crate::error::Error;
use vstd::prelude::*;

verus! {

/// How many characters at the end of a path do not count: one for a `/`,
/// two for a `.` behind a `/`, none otherwise.
pub open spec fn trailing_len(path: Seq<char>) -> int {
    if path.len() == 0 {
        0
    } else if path.last() == '/' {
        1
    } else if path.last() == '.' && path.len() >= 2 && path[path.len() - 2] == '/' {
        2
    } else {
        0
    }
}

/// Where a path ends once everything at its end that does not count is
/// left off, again and again.
pub open spec fn trimmed_len(path: Seq<char>) -> int
    decreases path.len(),
{
    if trailing_len(path) == 0 {
        path.len() as int
    } else {
        trimmed_len(path.take(path.len() - trailing_len(path)))
    }
}

/// A path without the separators and the `.` parts at its end.
pub open spec fn trimmed(path: Seq<char>) -> Seq<char> {
    path.take(trimmed_len(path))
}

/// Where the last part of a text starts: after its last `/`.
pub open spec fn name_start(path: Seq<char>) -> int
    decreases path.len(),
{
    if path.len() == 0 {
        0
    } else if path.last() == '/' {
        path.len() as int
    } else {
        name_start(path.drop_last())
    }
}

/// The last part of a path that counts.
pub open spec fn file_name(path: Seq<char>) -> Seq<char> {
    trimmed(path).skip(name_start(trimmed(path)))
}

/// Whether a path has a file name: whether its last part that counts is
/// not empty and is neither `.` nor `..`.
pub open spec fn has_file_name(path: Seq<char>) -> bool {
    let name = file_name(path);
    name.len() > 0 && name != seq!['.'] && name != seq!['.', '.']
}

/// Where the extension of a file name starts: at its last `.`, unless that
/// is its first character. `-1` where the name has no extension.
pub open spec fn extension_dot(name: Seq<char>) -> int
    decreases name.len(),
{
    if name.len() <= 1 {
        -1
    } else if name.last() == '.' {
        name.len() - 1
    } else {
        extension_dot(name.drop_last())
    }
}

/// Where the stem of a path's file name ends: before the extension of the
/// file name, or at the end of the file name where it has none.
pub open spec fn stem_end(path: Seq<char>) -> int {
    if extension_dot(file_name(path)) >= 0 {
        name_start(trimmed(path)) + extension_dot(file_name(path))
    } else {
        trimmed_len(path)
    }
}

/// A path cut after the stem of its file name: without the extension and
/// without what follows the file name. A path without a file name is left
/// as it is.
pub open spec fn without_extension(path: Seq<char>) -> Seq<char> {
    if has_file_name(path) {
        path.take(stem_end(path))
    } else {
        path
    }
}

/// What the names of numbered and temporary files are put behind: the stem
/// up to the end of its file name. A stem without a file name is taken for
/// a directory, and the files lie in it.
pub open spec fn name_base(stem: Seq<char>) -> Seq<char> {
    if has_file_name(stem) {
        trimmed(stem)
    } else if stem.len() > 0 && stem.last() != '/' {
        stem + "/"@
    } else {
        stem
    }
}

/// The path of the chunk at `index` of `count`, counted from zero: the
/// stem with `.gif` behind it for a lone chunk, and otherwise the stem up
/// to the end of its file name with `_<NNN>.gif` behind it.
pub open spec fn chunk_path_spec(stem: Seq<char>, index: nat, count: nat) -> Seq<char> {
    if count == 1 {
        stem + ".gif"@
    } else {
        name_base(stem) + "_"@ + padded(index + 1, 3) + ".gif"@
    }
}

/// The path of the temporary file with the number `index`: the stem up
/// to the end of its file name with `.tmp_<NNNNNN>.gif` behind it.
pub open spec fn temp_path_spec(stem: Seq<char>, index: nat) -> Seq<char> {
    name_base(stem) + ".tmp_"@ + padded(index, 6) + ".gif"@
}

/// What a scan of a path finds.
struct PathShape {
    /// Where the path ends once its end that does not count is left off.
    end: usize,
    /// Where the file name starts.
    name_start: usize,
    /// Where the extension's `.` is, if the file name has one.
    dot: Option<usize>,
    /// Whether the path has a file name.
    named: bool,
}

/// How many characters at the end of the first `end` do not count.
fn trailing_at(chars: &Vec<char>, end: usize) -> (count: usize)
    requires
        end <= chars@.len(),
    ensures
        count == trailing_len(chars@.take(end as int)),
        count <= end,
{
    if end == 0 {
        0
    } else if chars[end - 1] == '/' {
        1
    } else if chars[end - 1] == '.' && end >= 2 && chars[end - 2] == '/' {
        2
    } else {
        0
    }
}

/// Where the path ends once its end that does not count is left off.
fn trimmed_end(chars: &Vec<char>) -> (end: usize)
    ensures
        end == trimmed_len(chars@),
        end <= chars@.len(),
{
    let ghost path = chars@;
    let mut end: usize = chars.len();
    assert(path.take(end as int) =~= path);
    let mut trailing: usize = trailing_at(chars, end);
    while trailing > 0
        invariant
            path == chars@,
            end <= path.len(),
            trailing == trailing_len(path.take(end as int)),
            trimmed_len(path) == trimmed_len(path.take(end as int)),
        decreases end,
    {
        assert(path.take(end as int).take(end - trailing) =~= path.take(end - trailing));
        end = end - trailing;
        trailing = trailing_at(chars, end);
    }
    end
}

/// Where the last part of the first `end` characters starts.
fn last_part_start(chars: &Vec<char>, end: usize) -> (start: usize)
    requires
        end <= chars@.len(),
    ensures
        start == name_start(chars@.take(end as int)),
        start <= end,
{
    let ghost kept = chars@.take(end as int);
    let mut start: usize = end;
    assert(kept.take(start as int) =~= kept);
    while start > 0 && chars[start - 1] != '/'
        invariant
            kept == chars@.take(end as int),
            start <= end <= chars@.len(),
            name_start(kept) == name_start(kept.take(start as int)),
        decreases start,
    {
        assert(kept.take(start as int).drop_last() =~= kept.take(start - 1));
        start -= 1;
    }
    proof {
        if start > 0 {
            assert(kept.take(start as int).last() == '/');
        }
    }
    start
}

/// Where the extension's `.` is in the name from `start` up to `end`.
fn extension_dot_at(chars: &Vec<char>, start: usize, end: usize) -> (dot: Option<usize>)
    requires
        start <= end <= chars@.len(),
    ensures
        match dot {
            Some(dot) => {
                &&& extension_dot(chars@.subrange(start as int, end as int)) >= 0
                &&& dot == start + extension_dot(chars@.subrange(start as int, end as int))
                &&& start < dot < end
            },
            None => extension_dot(chars@.subrange(start as int, end as int)) == -1,
        },
{
    let ghost name = chars@.subrange(start as int, end as int);
    let mut stop: usize = end;
    assert(name.take(stop - start) =~= name);
    while stop - start > 1 && chars[stop - 1] != '.'
        invariant
            name == chars@.subrange(start as int, end as int),
            start <= stop <= end <= chars@.len(),
            extension_dot(name) == extension_dot(name.take(stop - start)),
        decreases stop,
    {
        assert(name.take(stop - start).drop_last() =~= name.take(stop - start - 1));
        stop -= 1;
    }
    if stop - start > 1 {
        assert(name.take(stop - start).last() == '.');
        Some(stop - 1)
    } else {
        None
    }
}

/// Finds the file name of a path, and the extension of the file name.
fn scan_path(chars: &Vec<char>) -> (shape: PathShape)
    ensures
        shape.end == trimmed_len(chars@),
        shape.name_start == name_start(trimmed(chars@)),
        shape.name_start <= shape.end <= chars@.len(),
        shape.named == has_file_name(chars@),
        match shape.dot {
            Some(dot) => {
                &&& extension_dot(file_name(chars@)) >= 0
                &&& dot == shape.name_start + extension_dot(file_name(chars@))
                &&& shape.name_start < dot < shape.end
            },
            None => extension_dot(file_name(chars@)) == -1,
        },
{
    let end = trimmed_end(chars);
    let start = last_part_start(chars, end);
    let dot = extension_dot_at(chars, start, end);
    let ghost name = file_name(chars@);
    assert(name =~= chars@.subrange(start as int, end as int));
    let length: usize = end - start;
    let named = length > 0 && !(length == 1 && chars[start] == '.') && !(length == 2
        && chars[start] == '.' && chars[start + 1] == '.');
    proof {
        if length == 1 {
            assert(name[0] == chars@[start as int]);
            assert(chars[start as int] == '.' <==> name =~= seq!['.']);
        } else if length == 2 {
            assert(name[0] == chars@[start as int]);
            assert(name[1] == chars@[start + 1]);
            assert(chars[start as int] == '.' && chars[start + 1] == '.' <==> name =~= seq![
                '.',
                '.',
            ]);
        }
    }
    PathShape { end, name_start: start, dot, named }
}

/// The stem that the results are named after: the output path cut after
/// the stem of its file name, or the input path cut so where no output
/// path is given. An input path without a file name is refused then.
pub fn output_stem_from_args(input: &str, output: Option<&str>) -> (stem: Result<String, Error>)
    ensures
        match stem {
            Ok(text) => match output {
                Some(path) => text@ == without_extension(path@),
                None => has_file_name(input@) && text@ == without_extension(input@),
            },
            Err(error) => {
                &&& output is None
                &&& !has_file_name(input@)
                &&& error matches Error::InvalidInput(reason)
                &&& reason@ == "input has no file stem"@
            },
        },
{
    let path: &str = match output {
        Some(path) => path,
        None => input,
    };
    let chars = chars_of(path);
    let shape = scan_path(&chars);
    if shape.named {
        let cut: usize = match shape.dot {
            Some(dot) => dot,
            None => shape.end,
        };
        Ok(String::from_str(path.substring_char(0, cut)))
    } else if output.is_some() {
        Ok(String::from_str(path))
    } else {
        Err(Error::InvalidInput(String::from_str("input has no file stem")))
    }
}

/// What the names of numbered and temporary files are put behind.
fn base_of(stem: &str) -> (base: String)
    ensures
        base@ == name_base(stem@),
{
    let chars = chars_of(stem);
    let shape = scan_path(&chars);
    if shape.named {
        String::from_str(stem.substring_char(0, shape.end))
    } else {
        let mut base = String::from_str(stem);
        if chars.len() > 0 && chars[chars.len() - 1] != '/' {
            base.append("/");
        }
        base
    }
}

/// The path of the chunk at `chunk_index` of `chunk_count`, counted from
/// zero: `<stem>.gif` for a lone chunk, `<stem>_<NNN>.gif` with the index
/// plus one otherwise. A numbered chunk lies beside the stem: its name is
/// the file name of the stem with `_<NNN>.gif` behind it, in the directory
/// of the stem.
pub fn chunk_output_path(stem: &str, chunk_index: u32, chunk_count: u32) -> (path: String)
    ensures
        path@ == chunk_path_spec(stem@, chunk_index as nat, chunk_count as nat),
{
    chunk_path_for(stem, chunk_index as u64, chunk_count as u64)
}

/// The path of the chunk at `index` of `count`, for as many chunks as
/// there can be.
pub fn chunk_path_for(stem: &str, index: u64, count: u64) -> (path: String)
    ensures
        path@ == chunk_path_spec(stem@, index as nat, count as nat),
{
    if count == 1 {
        let mut path = String::from_str(stem);
        path.append(".gif");
        path
    } else {
        let mut path = base_of(stem);
        path.append("_");
        push_padded(&mut path, index as u128 + 1, 3);
        path.append(".gif");
        path
    }
}

/// The path of the temporary file with the number `index`:
/// `<stem>.tmp_<NNNNNN>.gif`, beside the stem: its name is the file name
/// of the stem with `.tmp_<NNNNNN>.gif` behind it, in the directory of the
/// stem.
pub fn temp_output_path(stem: &str, index: u128) -> (path: String)
    ensures
        path@ == temp_path_spec(stem@, index as nat),
{
    let mut path = base_of(stem);
    path.append(".tmp_");
    push_padded(&mut path, index, 6);
    path.append(".gif");
    path
}

/// What is left of a path once its end is left off lies within the path
/// and has nothing more at its end that does not count.
pub proof fn lemma_trimmed_ends(path: Seq<char>)
    ensures
        0 <= trimmed_len(path) <= path.len(),
        trailing_len(trimmed(path)) == 0,
        trimmed_len(trimmed(path)) == trimmed_len(path),
        0 <= name_start(trimmed(path)) <= trimmed_len(path),
        trimmed_len(path) < path.len() ==> path[trimmed_len(path)] == '/',
        trailing_len(path) == 0 ==> trimmed(path) == path,
    decreases path.len(),
{
    if trailing_len(path) == 0 {
        assert(path.take(path.len() as int) =~= path);
    } else {
        let shorter = path.take(path.len() - trailing_len(path));
        lemma_trimmed_ends(shorter);
        assert(shorter.take(trimmed_len(shorter)) =~= path.take(trimmed_len(shorter)));
        if trimmed_len(shorter) < shorter.len() {
            assert(shorter[trimmed_len(shorter)] == path[trimmed_len(shorter)]);
        }
    }
    lemma_name_start_within(trimmed(path));
}

/// The last part of a text starts within the text.
pub proof fn lemma_name_start_within(path: Seq<char>)
    ensures
        0 <= name_start(path) <= path.len(),
    decreases path.len(),
{
    if path.len() > 0 && path.last() != '/' {
        lemma_name_start_within(path.drop_last());
    }
}

/// Text without a `/` behind a path does not move the start of its last part.
pub proof fn lemma_name_start_of_suffixed(path: Seq<char>, suffix: Seq<char>)
    requires
        forall|i: int| 0 <= i < suffix.len() ==> suffix[i] != '/',
    ensures
        name_start(path + suffix) == name_start(path),
    decreases suffix.len(),
{
    if suffix.len() == 0 {
        assert(path + suffix =~= path);
    } else {
        let shorter = suffix.drop_last();
        assert((path + suffix).drop_last() =~= path + shorter);
        assert((path + suffix).last() == suffix[suffix.len() - 1]);
        lemma_name_start_of_suffixed(path, shorter);
    }
}

/// A name behind the stem keeps the stem's directory. Where the `tail` has
/// no `/` and ends in neither `/` nor `.`, the path made of the stem up to
/// the end of its file name and the tail has nothing at its end that does
/// not count, lies in the directory of the stem, and has the file name of
/// the stem with the tail behind it.
pub proof fn lemma_tail_keeps_directory(stem: Seq<char>, tail: Seq<char>)
    requires
        has_file_name(stem),
        tail.len() > 2,
        forall|i: int| 0 <= i < tail.len() ==> tail[i] != '/',
        tail.last() != '.',
    ensures
        ({
            let path = trimmed(stem) + tail;
            let at = name_start(trimmed(stem));
            &&& trimmed(path) == path
            &&& name_start(trimmed(path)) == at
            &&& path.take(at) == stem.take(at)
            &&& file_name(path) == file_name(stem) + tail
            &&& has_file_name(path)
        }),
{
    let kept = trimmed(stem);
    let path = kept + tail;
    let at = name_start(kept);
    lemma_trimmed_ends(stem);
    lemma_name_start_of_suffixed(kept, tail);
    assert(path.last() == tail.last());
    assert(path.take(path.len() as int) =~= path);
    assert(path.take(at) =~= stem.take(at));
    assert(path.skip(at) =~= kept.skip(at) + tail);
    assert(file_name(path).len() > 2);
}

/// Parent directories are preserved. For a stem with a file name, the
/// path of a numbered chunk and the path of a temporary file lie in the
/// directory of the stem, and their file names are the file name of the
/// stem with `_<NNN>.gif` or `.tmp_<NNNNNN>.gif` behind it. So it is with
/// the lone chunk and `.gif`, where nothing follows the file name of the
/// stem.
pub proof fn lemma_paths_keep_directory(stem: Seq<char>, index: nat, count: nat, temp: nat)
    requires
        has_file_name(stem),
    ensures
        ({
            let at = name_start(trimmed(stem));
            let chunk = chunk_path_spec(stem, index, count);
            let working = temp_path_spec(stem, temp);
            &&& has_file_name(working)
            &&& name_start(trimmed(working)) == at
            &&& working.take(at) == stem.take(at)
            &&& file_name(working) == file_name(stem) + (".tmp_"@ + padded(temp, 6) + ".gif"@)
            &&& count != 1 || trailing_len(stem) == 0 ==> {
                &&& has_file_name(chunk)
                &&& name_start(trimmed(chunk)) == at
                &&& chunk.take(at) == stem.take(at)
            }
            &&& count != 1 ==> file_name(chunk) == file_name(stem) + ("_"@ + padded(index + 1, 3)
                + ".gif"@)
            &&& count == 1 && trailing_len(stem) == 0 ==> file_name(chunk) == file_name(stem)
                + ".gif"@
        }),
{
    reveal_strlit(".tmp_");
    reveal_strlit("_");
    reveal_strlit(".gif");
    lemma_padded_reads_back(temp, 6);
    lemma_padded_reads_back(index + 1, 3);
    lemma_trimmed_ends(stem);
    let kept = trimmed(stem);
    let numbered = "_"@ + padded(index + 1, 3) + ".gif"@;
    let working = ".tmp_"@ + padded(temp, 6) + ".gif"@;
    assert forall|i: int| 0 <= i < numbered.len() implies numbered[i] != '/' by {
        if 1 <= i < 1 + padded(index + 1, 3).len() {
            assert(numbered[i] == padded(index + 1, 3)[i - 1]);
        }
    }
    assert forall|i: int| 0 <= i < working.len() implies working[i] != '/' by {
        if 5 <= i < 5 + padded(temp, 6).len() {
            assert(working[i] == padded(temp, 6)[i - 5]);
        }
    }
    lemma_tail_keeps_directory(stem, ".gif"@);
    lemma_tail_keeps_directory(stem, numbered);
    lemma_tail_keeps_directory(stem, working);
    assert(kept + "_"@ + padded(index + 1, 3) + ".gif"@ =~= kept + numbered);
    assert(kept + ".tmp_"@ + padded(temp, 6) + ".gif"@ =~= kept + working);
}

/// Temporary files with different numbers have different paths.
pub proof fn lemma_temp_paths_differ(stem: Seq<char>, a: nat, b: nat)
    requires
        a != b,
    ensures
        temp_path_spec(stem, a) != temp_path_spec(stem, b),
{
    reveal_strlit(".tmp_");
    reveal_strlit(".gif");
    let left = temp_path_spec(stem, a);
    let right = temp_path_spec(stem, b);
    if left == right {
        let from = name_base(stem).len() + 5;
        assert(left.len() == from + padded(a, 6).len() + 4);
        assert(right.len() == from + padded(b, 6).len() + 4);
        let to = from + padded(a, 6).len();
        assert(left.subrange(from as int, to as int) =~= padded(a, 6));
        assert(right.subrange(from as int, to as int) =~= padded(b, 6));
        lemma_padded_is_injective(a, b, 6);
    }
}

/// Among several chunks, different indices have different paths.
pub proof fn lemma_chunk_paths_differ(stem: Seq<char>, a: nat, b: nat, count: nat)
    requires
        a != b,
        count != 1,
    ensures
        chunk_path_spec(stem, a, count) != chunk_path_spec(stem, b, count),
{
    reveal_strlit("_");
    reveal_strlit(".gif");
    let left = chunk_path_spec(stem, a, count);
    let right = chunk_path_spec(stem, b, count);
    if left == right {
        let from = name_base(stem).len() + 1;
        assert(left.len() == from + padded(a + 1, 3).len() + 4);
        assert(right.len() == from + padded(b + 1, 3).len() + 4);
        let to = from + padded(a + 1, 3).len();
        assert(left.subrange(from as int, to as int) =~= padded(a + 1, 3));
        assert(right.subrange(from as int, to as int) =~= padded(b + 1, 3));
        lemma_padded_is_injective(a + 1, b + 1, 3);
    }
}

/// No temporary file has the path of a result.
pub proof fn lemma_temp_is_no_chunk(stem: Seq<char>, temp: nat, index: nat, count: nat)
    ensures
        temp_path_spec(stem, temp) != chunk_path_spec(stem, index, count),
{
    reveal_strlit(".tmp_");
    reveal_strlit("_");
    reveal_strlit(".gif");
    reveal_strlit("/");
    let left = temp_path_spec(stem, temp);
    let right = chunk_path_spec(stem, index, count);
    lemma_padded_reads_back(temp, 6);
    lemma_padded_reads_back(index + 1, 3);
    lemma_trimmed_ends(stem);
    let at = name_base(stem).len() as int;
    assert(left[at] == '.');
    assert(left[at + 1] == 't');
    if count != 1 {
        assert(right[at] == '_');
    } else if name_base(stem) == stem {
        assert(right[at + 1] == 'g');
    } else if has_file_name(stem) {
        assert(right[at] == stem[at]);
    } else {
        assert(name_base(stem) == stem + seq!['/']);
        assert(left[stem.len() as int] == '/');
        assert(right[stem.len() as int] == '.');
    }
}

} // verus!
