//! The segmented input of the parser: brz_io's readers and views, seen
//! through the bytes they hold, and the standard library's UTF-8 check.
use vstd::prelude::*;
use vstd::string::StringSliceAdditionalSpecFns;
use vstd::utf8::valid_utf8;
use brz_io::{Reader, ReaderView};

verus! {

/// The owned segmented reader of brz_io.
#[verifier::external_type_specification]
#[verifier::external_body]
pub struct ExReader(Reader);

/// A borrowed, bounded range of a brz_io reader.
#[verifier::external_type_specification]
#[verifier::external_body]
pub struct ExReaderView<'a>(ReaderView<'a>);

/// The bytes that a reader view covers, from its start to its end.
pub uninterp spec fn view_bytes(view: ReaderView) -> Seq<u8>;

/// `Reader::view`: a view of the reader's unread bytes, from its cursor to its
/// end. Nothing is stated of which bytes those are: the cursor of a `Reader`
/// is an atomic that shared reads (`Reader::skip`, `Reader::read_bytes`) move
/// through `&Reader`, so they are no function of the reader's value.
#[verifier::external_body]
pub(crate) fn reader_view(reader: &Reader) -> (view: ReaderView<'_>) {
    reader.view()
}

/// `Reader::position`: the reader's cursor, counted from the reader's original
/// start. Nothing is stated of its value, for the reason given above.
#[verifier::external_body]
pub(crate) fn reader_position(reader: &Reader) -> (position: usize) {
    reader.position()
}

/// `ReaderView::len`: the number of bytes that the view covers.
#[verifier::external_body]
pub(crate) fn view_len(view: &ReaderView) -> (n: usize)
    ensures
        n == view_bytes(*view).len(),
{
    view.len()
}

/// `ReaderView::peek_byte`: the byte at `offset` of the view, or `None` at or
/// past its end.
#[verifier::external_body]
pub(crate) fn view_peek_byte(view: &ReaderView, offset: usize) -> (b: Option<u8>)
    ensures
        b == (if offset < view_bytes(*view).len() {
            Some(view_bytes(*view)[offset as int])
        } else {
            None
        }),
{
    view.peek_byte(offset)
}

/// `ReaderView::peek_bytes`: the `len` bytes at `offset` of the view, borrowed
/// for the view's lifetime, or the I/O error's text when they pass its end.
#[verifier::external_body]
pub(crate) fn view_peek_bytes<'a>(view: &ReaderView<'a>, offset: usize, len: usize) -> (r: Result<
    &'a [u8],
    String,
>)
    ensures
        r is Ok <==> offset + len <= view_bytes(*view).len(),
        r matches Ok(b) ==> b@ == view_bytes(*view).subrange(offset as int, offset + len),
{
    view.peek_bytes(offset, len).map_err(|error| error.to_string())
}

/// `ReaderView::store_bytes_with`: copy `data` into the reader's arena, where
/// it stays valid for the view's lifetime. The closure only appends `data` to
/// an allocation of exactly its length, so it neither fails nor overflows.
#[verifier::external_body]
pub(crate) fn view_store<'a>(view: &ReaderView<'a>, data: &[u8]) -> (stored: &'a [u8])
    ensures
        stored@ == data@,
{
    let r = view.store_bytes_with(
        data.len(),
        |output| -> Result<(), std::convert::Infallible> {
            output.extend_from_slice(data);
            Ok(())
        },
    );
    match r {
        Ok(stored) => stored,
        Err(never) => match never {},
    }
}

/// `std::str::from_utf8`: the bytes as a string slice when they are valid
/// UTF-8 (as vstd defines it), else the text of the UTF-8 error.
#[verifier::external_body]
pub(crate) fn str_from_utf8(bytes: &[u8]) -> (r: Result<&str, String>)
    ensures
        r is Ok <==> valid_utf8(bytes@),
        r matches Ok(text) ==> text.spec_bytes() == bytes@,
{
    std::str::from_utf8(bytes).map_err(|error| error.to_string())
}

} // verus!
