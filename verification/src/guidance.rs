//! Local project guidance: the Markdown files under `.deep` in the working
//! directory, read once at startup and given to the model.
use vstd::prelude::*;

use crate::agent::Message;
use crate::text::{chars_of, owned};
use crate::order::{insert_by, lemma_insert_by_at, lemma_sort_by, lex_le, lex_le_str, sort_by, sorted_by};
use vstd::utf8::{decode_utf8, valid_utf8};

verus! {

/// Guidance files larger than this many bytes (1 MB) are skipped.
pub const MAX_GUIDANCE_SIZE: u64 = 1_000_000;

/// The name of a Markdown file: something followed by `.md`.
pub open spec fn markdown_name(name: Seq<char>) -> bool {
    name.len() > 3 && name.skip(name.len() - 3) == ".md"@
}

/// Whether a file with this name is read as guidance (only `.md` files
/// are).
pub fn is_guidance_name(name: &str) -> (r: bool)
    ensures
        r == markdown_name(name@),
{
    proof {
        reveal_strlit(".md");
    }
    let v = chars_of(name);
    let n = v.len();
    if n <= 3 {
        return false;
    }
    let r = v[n - 3] == '.' && v[n - 2] == 'm' && v[n - 1] == 'd';
    proof {
        let tail = name@.skip(n - 3);
        assert(tail[0] == v@[n - 3] && tail[1] == v@[n - 2] && tail[2] == v@[n - 1]);
        if r {
            assert(tail =~= ".md"@);
        }
    }
    r
}

/// Whether a guidance file of `size` bytes is read (files over 1 MB are
/// skipped).
pub fn guidance_size_ok(size: u64) -> (r: bool)
    ensures
        r == (size <= MAX_GUIDANCE_SIZE),
{
    size <= MAX_GUIDANCE_SIZE
}

/// A guidance file that was read: its path below `.deep` and its text.
pub struct GuidanceFile {
    pub path: String,
    pub content: String,
}

/// Calls `String::from_utf8` on a copy of the bytes; claimed: it gives
/// the text the bytes encode exactly when they are valid UTF-8, and none
/// otherwise.
#[verifier::external_body]
fn string_from_utf8(bytes: &Vec<u8>) -> (r: Option<String>)
    ensures
        match r {
            Some(text) => valid_utf8(bytes@) && text@ == decode_utf8(bytes@),
            None => !valid_utf8(bytes@),
        },
{
    String::from_utf8(bytes.to_vec()).ok()
}

/// A file found below `.deep`: its path there, its name, its size in
/// bytes and its bytes.
pub struct GuidanceCandidate {
    pub path: String,
    pub name: String,
    pub size: u64,
    pub bytes: Vec<u8>,
}

/// Whether a candidate is read as guidance: a Markdown name, at most 1 MB,
/// and valid UTF-8.
pub open spec fn readable(c: GuidanceCandidate) -> bool {
    markdown_name(c.name@) && c.size <= MAX_GUIDANCE_SIZE && valid_utf8(c.bytes@)
}

/// The candidates that are read, in the order given, as path and text.
pub open spec fn readable_files(cs: Seq<GuidanceCandidate>) -> Seq<(Seq<char>, Seq<char>)>
    decreases cs.len(),
{
    if cs.len() == 0 {
        seq![]
    } else if readable(cs.last()) {
        readable_files(cs.drop_last()).push((cs.last().path@, decode_utf8(cs.last().bytes@)))
    } else {
        readable_files(cs.drop_last())
    }
}

/// Which files are guidance: a file is taken exactly when its name ends in
/// `.md` after at least one other character, it holds at most 1,000,000
/// bytes, and its bytes are valid UTF-8; it is then taken with the text they
/// encode, after the files found before it.
pub proof fn lemma_guidance_rules(cs: Seq<GuidanceCandidate>, c: GuidanceCandidate)
    ensures
        ({
            let n = c.name@;
            let kept = n.len() > 3 && n[n.len() - 3] == '.' && n[n.len() - 2] == 'm'
                && n[n.len() - 1] == 'd' && c.size <= 1_000_000 && valid_utf8(c.bytes@);
            &&& kept ==> readable_files(cs.push(c)) == readable_files(cs).push(
                (c.path@, decode_utf8(c.bytes@)),
            )
            &&& !kept ==> readable_files(cs.push(c)) == readable_files(cs)
        }),
{
    reveal_strlit(".md");
    let n = c.name@;
    assert(cs.push(c).drop_last() =~= cs);
    if n.len() > 3 {
        let t = n.skip(n.len() - 3);
        assert(t[0] == n[n.len() - 3] && t[1] == n[n.len() - 2] && t[2] == n[n.len() - 1]);
        if n[n.len() - 3] == '.' && n[n.len() - 2] == 'm' && n[n.len() - 1] == 'd' {
            assert(t =~= ".md"@);
        }
    }
}

/// A file is sorted by its path.
pub open spec fn path_key() -> spec_fn((Seq<char>, Seq<char>)) -> Seq<char> {
    |f: (Seq<char>, Seq<char>)| f.0
}

/// The files in the order of their paths.
pub open spec fn by_path(s: Seq<(Seq<char>, Seq<char>)>) -> Seq<(Seq<char>, Seq<char>)> {
    sort_by(s, path_key())
}

/// The files are in the order of their paths.
pub open spec fn paths_sorted(s: Seq<(Seq<char>, Seq<char>)>) -> bool {
    sorted_by(s, path_key())
}

/// Guidance comes in the order of the files' paths, and nothing is lost
/// or added: the files are those that were read, each as often as it
/// occurs.
pub proof fn lemma_guidance_in_path_order(s: Seq<(Seq<char>, Seq<char>)>)
    ensures
        paths_sorted(by_path(s)),
        by_path(s).to_multiset() == s.to_multiset(),
{
    lemma_sort_by(s, path_key());
}

fn insert_file(out: &mut Vec<GuidanceFile>, f: GuidanceFile)
    ensures
        files_view(final(out)@) == insert_by((f.path@, f.content@), files_view(old(out)@), path_key()),
{
    let mut j: usize = 0;
    let ghost s = files_view(out@);
    let ghost fv = (f.path@, f.content@);
    while j < out.len() && !lex_le_str(f.path.as_str(), out[j].path.as_str())
        invariant
            j <= out.len(),
            s == files_view(out@),
            fv == (f.path@, f.content@),
            forall|k: int| 0 <= k < j ==> !lex_le(fv.0, #[trigger] s[k].0),
        decreases out.len() - j,
    {
        j = j + 1;
    }
    proof {
        lemma_insert_by_at(fv, s, path_key(), j as int);
    }
    out.insert(j, f);
    assert(files_view(out@) =~= s.insert(j as int, fv));
}

/// The guidance files among the candidates: those with a Markdown name, at
/// most 1 MB and valid UTF-8, in the order of their paths.
pub fn guidance_files(candidates: &Vec<GuidanceCandidate>) -> (r: Vec<GuidanceFile>)
    ensures
        files_view(r@) == by_path(readable_files(candidates@)),
{
    let mut out: Vec<GuidanceFile> = Vec::new();
    let ghost cs = candidates@;
    assert(cs.take(0) =~= Seq::<GuidanceCandidate>::empty());
    assert(files_view(out@) =~= Seq::<(Seq<char>, Seq<char>)>::empty());
    for i in 0..candidates.len()
        invariant
            cs == candidates@,
            files_view(out@) == by_path(readable_files(cs.take(i as int))),
    {
        let c = &candidates[i];
        assert(cs.take(i + 1).drop_last() =~= cs.take(i as int));
        assert(cs.take(i + 1).last() == *c);
        if is_guidance_name(c.name.as_str()) && guidance_size_ok(c.size) {
            match string_from_utf8(&c.bytes) {
                Some(text) => {
                    let ghost init = readable_files(cs.take(i as int));
                    let ghost f = (c.path@, text@);
                    assert(init.push(f).drop_last() =~= init);
                    insert_file(&mut out, GuidanceFile { path: c.path.clone(), content: text });
                },
                None => {},
            }
        }
    }
    assert(cs.take(candidates.len() as int) =~= cs);
    out
}

/// The opening line of the guidance message.
pub open spec fn guidance_header() -> Seq<char> {
    "Local project guidance from the .deep directory. Follow it when working in this project."@
}

/// One file's section of the guidance message.
pub open spec fn guidance_section(path: Seq<char>, content: Seq<char>) -> Seq<char> {
    "\n\n# "@ + path + "\n\n"@ + content
}

/// The guidance message's text for these files, in order.
pub open spec fn guidance_text(files: Seq<(Seq<char>, Seq<char>)>) -> Seq<char>
    decreases files.len(),
{
    if files.len() == 0 {
        guidance_header()
    } else {
        guidance_text(files.drop_last()) + guidance_section(files.last().0, files.last().1)
    }
}

/// The files as plain values.
pub open spec fn files_view(files: Seq<GuidanceFile>) -> Seq<(Seq<char>, Seq<char>)> {
    files.map_values(|f: GuidanceFile| (f.path@, f.content@))
}

/// The system message that gives the guidance to the model, or none when
/// there is no guidance file.
pub fn guidance_message(files: &Vec<GuidanceFile>) -> (m: Option<Message>)
    ensures
        files@.len() == 0 ==> m is None,
        files@.len() > 0 ==> (m matches Some(Message::System { content }) && content@
            == guidance_text(files_view(files@))),
{
    if files.len() == 0 {
        return None;
    }
    let ghost fv = files_view(files@);
    let mut text = owned(
        "Local project guidance from the .deep directory. Follow it when working in this project.",
    );
    assert(fv.take(0) =~= Seq::<(Seq<char>, Seq<char>)>::empty());
    for i in 0..files.len()
        invariant
            fv == files_view(files@),
            text@ == guidance_text(fv.take(i as int)),
    {
        text.append("\n\n# ");
        text.append(files[i].path.as_str());
        text.append("\n\n");
        text.append(files[i].content.as_str());
        assert(fv.take(i + 1).drop_last() =~= fv.take(i as int));
        assert(fv.take(i + 1).last() == (files@[i as int].path@, files@[i as int].content@));
    }
    assert(fv.take(files.len() as int) =~= fv);
    Some(Message::System { content: text })
}

} // verus!
