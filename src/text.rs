use vstd::prelude::*;
use vstd::utf8::valid_utf8;

use crate::paths::append_all;

verus! {

/// The backquote byte of a fence.
pub const BACKQUOTE: u8 = 96;

/// The line-feed byte.
pub const NEWLINE: u8 = 10;

/// Relies on `std::str::from_utf8`: it returns `Ok` exactly when the bytes
/// are well-formed UTF-8.
#[verifier::external_body]
fn is_utf8(bytes: &[u8]) -> (r: bool)
    ensures
        r == valid_utf8(bytes@),
{
    std::str::from_utf8(bytes).is_ok()
}

/// The fence that opens and closes a printed block.
pub open spec fn fence() -> Seq<u8> {
    seq![BACKQUOTE, BACKQUOTE, BACKQUOTE]
}

/// A printed block: the fence and the display path on the first line, the
/// contents unchanged, then the closing fence and a blank separator line.
pub open spec fn fenced(display: Seq<u8>, body: Seq<u8>) -> Seq<u8> {
    fence() + display + seq![NEWLINE] + body + fence() + seq![NEWLINE, NEWLINE]
}

fn push_fence(out: &mut Vec<u8>)
    ensures
        final(out)@ == old(out)@ + fence(),
{
    out.push(BACKQUOTE);
    out.push(BACKQUOTE);
    out.push(BACKQUOTE);
    assert(final(out)@ =~= old(out)@ + fence());
}

/// The block that prints `body` under the display path `display`.
pub fn fenced_block(display: &[u8], body: &[u8]) -> (r: Vec<u8>)
    ensures
        r@ == fenced(display@, body@),
{
    let mut out: Vec<u8> = Vec::new();
    push_fence(&mut out);
    append_all(&mut out, display);
    out.push(NEWLINE);
    append_all(&mut out, body);
    push_fence(&mut out);
    out.push(NEWLINE);
    out.push(NEWLINE);
    assert(out@ =~= fenced(display@, body@));
    out
}

/// What became of a file that was read: text is printed, anything else is
/// skipped as binary.
pub enum FileResult {
    /// The block to print.
    Printed(Vec<u8>),
    /// The contents are not text.
    NotText,
}

/// Decides what to do with a file whose display path is `display` and whose
/// contents are `contents`: a file whose bytes are text is printed as one
/// block holding exactly those bytes; a binary file is never printed.
pub fn process_file(display: &[u8], contents: &[u8]) -> (r: FileResult)
    ensures
        valid_utf8(contents@) ==> (r matches FileResult::Printed(b) && b@ == fenced(
            display@,
            contents@,
        )),
        !valid_utf8(contents@) ==> r is NotText,
{
    if is_utf8(contents) {
        FileResult::Printed(fenced_block(display, contents))
    } else {
        FileResult::NotText
    }
}

/// A printed block gives back the file's contents byte for byte: what stands
/// between the header line and the closing fence is exactly `body`.
pub proof fn lemma_block_body_is_contents(display: Seq<u8>, body: Seq<u8>)
    ensures
        ({
            let block = fenced(display, body);
            let start = display.len() as int + 4;
            &&& block.subrange(0, 3) == fence()
            &&& block.subrange(3, 3 + display.len() as int) == display
            &&& block[3 + display.len() as int] == NEWLINE
            &&& block.subrange(start, start + body.len() as int) == body
            &&& block.subrange(start + body.len() as int, block.len() as int) == fence() + seq![NEWLINE, NEWLINE]
        }),
{
    let block = fenced(display, body);
    let start = display.len() as int + 4;
    assert(block.subrange(0, 3) =~= fence());
    assert(block.subrange(3, 3 + display.len() as int) =~= display);
    assert(block.subrange(start, start + body.len() as int) =~= body);
    assert(block.subrange(start + body.len() as int, block.len() as int) =~= fence() + seq![NEWLINE, NEWLINE]);
}

} // verus!
