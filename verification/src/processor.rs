//! What becomes of one file's contents on its way into the output.

use crate::decommenter::logic::append;
use crate::decommenter::model::{strip, NEWLINE};
use crate::decommenter::LanguageDB;
use vstd::prelude::*;
use vstd::slice::slice_to_vec;

verus! {

/// Whether the contents hold a NUL byte, which text files do not.
pub fn is_binary(contents: &[u8]) -> (binary: bool)
    ensures
        binary == contents@.contains(0u8),
{
    let mut k: usize = 0;
    while k < contents.len()
        invariant
            k <= contents@.len(),
            forall|i: int| 0 <= i < k ==> contents@[i] != 0u8,
        decreases contents@.len() - k,
    {
        if contents[k] == 0 {
            return true;
        }
        k += 1;
    }
    false
}

/// The bytes that a file adds to the output: a header line that names the
/// file, the contents, and a newline.
pub open spec fn block_of(path: Seq<char>, contents: Seq<u8>) -> Seq<u8> {
    vstd::utf8::encode_utf8("// FILE: "@) + vstd::utf8::encode_utf8(path) + seq![NEWLINE]
        + contents + seq![NEWLINE]
}

/// The block of a file: its header, its contents and a closing newline.
pub fn file_block(path: &str, contents: &[u8]) -> (block: Vec<u8>)
    ensures
        block@ == block_of(path@, contents@),
{
    let mut block: Vec<u8> = Vec::new();
    append(&mut block, "// FILE: ".as_bytes());
    append(&mut block, path.as_bytes());
    block.push(NEWLINE);
    append(&mut block, contents);
    block.push(NEWLINE);
    assert(block@ =~= block_of(path@, contents@));
    block
}

/// What is done with a file that was read.
#[derive(Debug)]
pub enum FileAction {
    /// The file is binary and is left out.
    SkipBinary,
    /// The bytes are appended to the output.
    Append(Vec<u8>),
}

/// The contents as they go into the output: without their comments where
/// a registry is given and knows the extension, as they are otherwise.
pub open spec fn prepared(
    languages: Option<LanguageDB>,
    extension: Option<&str>,
    contents: Seq<u8>,
) -> Seq<u8> {
    match (languages, extension) {
        (Some(db), Some(ext)) => match db@.lookup(ext@) {
            Some(syntax) => strip(contents, syntax),
            None => contents,
        },
        _ => contents,
    }
}

/// Decides what is done with a file that was read: a binary file is left
/// out; any other is appended under its header, without its comments where
/// `languages` knows its extension.
pub fn process_contents(
    languages: Option<&LanguageDB>,
    path: &str,
    extension: Option<&str>,
    contents: &[u8],
) -> (action: FileAction)
    ensures
        match action {
            FileAction::SkipBinary => contents@.contains(0u8),
            FileAction::Append(block) => !contents@.contains(0u8) && block@ == block_of(
                path@,
                prepared(
                    match languages {
                        Some(db) => Some(*db),
                        None => None,
                    },
                    extension,
                    contents@,
                ),
            ),
        },
{
    if is_binary(contents) {
        return FileAction::SkipBinary;
    }
    let body = match (languages, extension) {
        (Some(db), Some(ext)) => db.strip_by_extension(ext, contents),
        _ => slice_to_vec(contents),
    };
    FileAction::Append(file_block(path, body.as_slice()))
}

} // verus!
