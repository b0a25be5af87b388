//! What the caches on disk hold: rows with an expiry, whose keys and values
//! are in the format of `bincode`.

use vstd::bytes::{spec_u32_to_le_bytes, spec_u64_from_le_bytes, spec_u64_to_le_bytes};
use vstd::prelude::*;
use vstd::utf8::{decode_utf8, encode_utf8, valid_utf8};

verus! {

#[verifier::external_type_specification]
#[verifier::external_body]
pub struct ExSqliteError(rusqlite::Error);

#[verifier::external_type_specification]
#[verifier::external_body]
pub struct ExBincodeErrorKind(bincode::ErrorKind);

#[verifier::external_type_specification]
#[verifier::external_body]
pub struct ExIoError(std::io::Error);

/// Why a cache cannot be read or written.
#[derive(Debug)]
pub enum DiskCacheError {
    Sqlite(rusqlite::Error),
    Bincode(Box<bincode::ErrorKind>),
    Io(std::io::Error),
}

/// Bytes behind their number, which stands in eight bytes, the lowest first.
pub open spec fn framed(bytes: Seq<u8>) -> Seq<u8> {
    spec_u64_to_le_bytes(bytes.len() as u64) + bytes
}

/// The bytes behind their number, `None` where there are fewer. What follows
/// them does not count.
pub open spec fn unframed(bytes: Seq<u8>) -> Option<Seq<u8>> {
    if bytes.len() < 8 {
        None
    } else {
        let count = spec_u64_from_le_bytes(bytes.take(8)) as int;
        if 8 + count <= bytes.len() {
            Some(bytes.subrange(8, 8 + count))
        } else {
            None
        }
    }
}

/// The text in the bytes behind their number, `None` where there is none.
pub open spec fn unframed_text(bytes: Seq<u8>) -> Option<Seq<char>> {
    match unframed(bytes) {
        Some(content) => if valid_utf8(content) {
            Some(decode_utf8(content))
        } else {
            None
        },
        None => None,
    }
}

/// A number that may be missing: a mark, and the number where there is one, in
/// four bytes, the lowest first.
pub open spec fn optional_number(number: Option<u32>) -> Seq<u8> {
    match number {
        None => seq![0u8],
        Some(number) => seq![1u8] + spec_u32_to_le_bytes(number),
    }
}

/// A text, a truth value and a number that may be missing, one after the other.
pub open spec fn settings_bytes(text: Seq<char>, flag: bool, number: Option<u32>) -> Seq<u8> {
    framed(encode_utf8(text)) + seq![
        if flag {
            1u8
        } else {
            0u8
        },
    ] + optional_number(number)
}

/// Calls `bincode::serialize` on a text. It does not fail there.
#[verifier::external_body]
fn serialize_text(text: &str) -> (encoded: Result<Vec<u8>, Box<bincode::ErrorKind>>)
    ensures
        encoded is Ok,
        encoded->Ok_0@ == framed(encode_utf8(text@)),
{
    bincode::serialize(text)
}

/// Calls `bincode::serialize` on bytes. It does not fail there.
#[verifier::external_body]
fn serialize_bytes(bytes: &[u8]) -> (encoded: Result<Vec<u8>, Box<bincode::ErrorKind>>)
    ensures
        encoded is Ok,
        encoded->Ok_0@ == framed(bytes@),
{
    bincode::serialize(bytes)
}

/// Calls `bincode::serialize` on a text, a truth value and a number that may be
/// missing. It does not fail there.
#[verifier::external_body]
fn serialize_settings(text: &str, flag: bool, number: Option<u32>) -> (encoded: Result<
    Vec<u8>,
    Box<bincode::ErrorKind>,
>)
    ensures
        encoded is Ok,
        encoded->Ok_0@ == settings_bytes(text@, flag, number),
{
    bincode::serialize(&(text, flag, number))
}

/// Why there is no text in bytes.
pub uninterp spec fn text_error(bytes: Seq<u8>) -> Box<bincode::ErrorKind>;

/// Calls `bincode::deserialize` for a text.
#[verifier::external_body]
fn deserialize_text(bytes: &[u8]) -> (decoded: Result<String, Box<bincode::ErrorKind>>)
    ensures
        match decoded {
            Ok(text) => unframed_text(bytes@) == Some(text@),
            Err(error) => unframed_text(bytes@) is None && error == text_error(bytes@),
        },
{
    bincode::deserialize(bytes)
}

/// Why there are no bytes in bytes.
pub uninterp spec fn bytes_error(bytes: Seq<u8>) -> Box<bincode::ErrorKind>;

/// Calls `bincode::deserialize` for bytes.
#[verifier::external_body]
fn deserialize_bytes(bytes: &[u8]) -> (decoded: Result<Vec<u8>, Box<bincode::ErrorKind>>)
    ensures
        match decoded {
            Ok(content) => unframed(bytes@) == Some(content@),
            Err(error) => unframed(bytes@) is None && error == bytes_error(bytes@),
        },
{
    bincode::deserialize(bytes)
}

/// The key or the value of a row for a text.
pub fn encode_text(text: &str) -> (encoded: Result<Vec<u8>, DiskCacheError>)
    ensures
        encoded is Ok,
        encoded->Ok_0@ == framed(encode_utf8(text@)),
{
    match serialize_text(text) {
        Ok(bytes) => Ok(bytes),
        Err(error) => Err(DiskCacheError::Bincode(error)),
    }
}

/// The value of a row for bytes.
pub fn encode_bytes(bytes: &[u8]) -> (encoded: Result<Vec<u8>, DiskCacheError>)
    ensures
        encoded is Ok,
        encoded->Ok_0@ == framed(bytes@),
{
    match serialize_bytes(bytes) {
        Ok(bytes) => Ok(bytes),
        Err(error) => Err(DiskCacheError::Bincode(error)),
    }
}

/// The key of a row for a text, a truth value and a number that may be missing.
pub fn encode_settings(text: &str, flag: bool, number: Option<u32>) -> (encoded: Result<
    Vec<u8>,
    DiskCacheError,
>)
    ensures
        encoded is Ok,
        encoded->Ok_0@ == settings_bytes(text@, flag, number),
{
    match serialize_settings(text, flag, number) {
        Ok(bytes) => Ok(bytes),
        Err(error) => Err(DiskCacheError::Bincode(error)),
    }
}

/// The text in the value of a row.
pub fn decode_text(bytes: &[u8]) -> (decoded: Result<String, DiskCacheError>)
    ensures
        match decoded {
            Ok(text) => unframed_text(bytes@) == Some(text@),
            Err(error) => unframed_text(bytes@) is None && error == DiskCacheError::Bincode(
                text_error(bytes@),
            ),
        },
{
    match deserialize_text(bytes) {
        Ok(text) => Ok(text),
        Err(error) => Err(DiskCacheError::Bincode(error)),
    }
}

/// The bytes in the value of a row.
pub fn decode_bytes(bytes: &[u8]) -> (decoded: Result<Vec<u8>, DiskCacheError>)
    ensures
        match decoded {
            Ok(content) => unframed(bytes@) == Some(content@),
            Err(error) => unframed(bytes@) is None && error == DiskCacheError::Bincode(
                bytes_error(bytes@),
            ),
        },
{
    match deserialize_bytes(bytes) {
        Ok(content) => Ok(content),
        Err(error) => Err(DiskCacheError::Bincode(error)),
    }
}

/// A row of a cache without its key.
pub struct CacheRow {
    pub value: Vec<u8>,
    /// The second, counted from the beginning of 1970, from which on the row
    /// does not count any more.
    pub expiry: u64,
}

/// The value of a [`CacheRow`].
pub struct CacheRowView {
    pub value: Seq<u8>,
    pub expiry: int,
}

impl View for CacheRow {
    type V = CacheRowView;

    open spec fn view(&self) -> CacheRowView {
        CacheRowView { value: self.value@, expiry: self.expiry as int }
    }
}

/// A row that is written at the second `now` and lasts for some seconds.
pub open spec fn row_of(value: Seq<u8>, now: int, expires_in_seconds: int) -> CacheRowView {
    CacheRowView { value: value, expiry: now + expires_in_seconds }
}

/// What a cache says of a key.
pub enum Cached<T> {
    /// The value for the key.
    Hit(T),
    /// There was a value, but its row does not count any more and is to be
    /// removed.
    Expired,
    /// There is no value.
    Miss,
}

/// What a cache says at the second `now` of a key with that row.
pub open spec fn cached(row: Option<CacheRowView>, now: int) -> Cached<Seq<u8>> {
    match row {
        Some(row) => if row.expiry > now {
            Cached::Hit(row.value)
        } else {
            Cached::Expired
        },
        None => Cached::Miss,
    }
}

/// What a cache of texts says of a key, `None` where the row holds no text.
pub open spec fn cached_text(row: Option<CacheRowView>, now: int) -> Option<Cached<Seq<char>>> {
    match cached(row, now) {
        Cached::Hit(value) => match unframed_text(value) {
            Some(text) => Some(Cached::Hit(text)),
            None => None,
        },
        Cached::Expired => Some(Cached::Expired),
        Cached::Miss => Some(Cached::Miss),
    }
}

/// What a cache of bytes says of a key, `None` where the row does not hold its
/// bytes.
pub open spec fn cached_bytes(row: Option<CacheRowView>, now: int) -> Option<Cached<Seq<u8>>> {
    match cached(row, now) {
        Cached::Hit(value) => match unframed(value) {
            Some(content) => Some(Cached::Hit(content)),
            None => None,
        },
        Cached::Expired => Some(Cached::Expired),
        Cached::Miss => Some(Cached::Miss),
    }
}

/// The value of a row that may be missing.
pub open spec fn row_view(row: Option<CacheRow>) -> Option<CacheRowView> {
    match row {
        Some(row) => Some(row@),
        None => None,
    }
}

/// The row for a text.
pub fn text_row(text: &str, now: u64, expires_in_seconds: u64) -> (row: Result<
    CacheRow,
    DiskCacheError,
>)
    requires
        now + expires_in_seconds <= u64::MAX,
    ensures
        row is Ok,
        row->Ok_0@ == row_of(framed(encode_utf8(text@)), now as int, expires_in_seconds as int),
{
    match encode_text(text) {
        Ok(value) => Ok(CacheRow { value: value, expiry: now + expires_in_seconds }),
        Err(error) => Err(error),
    }
}

/// The row for bytes.
pub fn bytes_row(bytes: &[u8], now: u64, expires_in_seconds: u64) -> (row: Result<
    CacheRow,
    DiskCacheError,
>)
    requires
        now + expires_in_seconds <= u64::MAX,
    ensures
        row is Ok,
        row->Ok_0@ == row_of(framed(bytes@), now as int, expires_in_seconds as int),
{
    match encode_bytes(bytes) {
        Ok(value) => Ok(CacheRow { value: value, expiry: now + expires_in_seconds }),
        Err(error) => Err(error),
    }
}

/// Tells whether a row still counts at the second `now`.
pub fn read_row(row: Option<CacheRow>, now: u64) -> (result: Cached<Vec<u8>>)
    ensures
        match result {
            Cached::Hit(value) => cached(row_view(row), now as int) == Cached::Hit(value@),
            Cached::Expired => cached(row_view(row), now as int) is Expired,
            Cached::Miss => cached(row_view(row), now as int) is Miss,
        },
{
    match row {
        Some(row) => if row.expiry > now {
            Cached::Hit(row.value)
        } else {
            Cached::Expired
        },
        None => Cached::Miss,
    }
}

/// Reads a row of a cache of texts.
pub fn read_text(row: Option<CacheRow>, now: u64) -> (result: Result<
    Cached<String>,
    DiskCacheError,
>)
    ensures
        match result {
            Ok(Cached::Hit(text)) => cached_text(row_view(row), now as int) == Some(
                Cached::Hit(text@),
            ),
            Ok(Cached::Expired) => cached_text(row_view(row), now as int) == Some(
                Cached::<Seq<char>>::Expired,
            ),
            Ok(Cached::Miss) => cached_text(row_view(row), now as int) == Some(
                Cached::<Seq<char>>::Miss,
            ),
            Err(error) => cached_text(row_view(row), now as int) is None && error
                == DiskCacheError::Bincode(text_error(row_view(row)->0.value)),
        },
{
    match read_row(row, now) {
        Cached::Hit(value) => match decode_text(&value) {
            Ok(text) => Ok(Cached::Hit(text)),
            Err(error) => Err(error),
        },
        Cached::Expired => Ok(Cached::Expired),
        Cached::Miss => Ok(Cached::Miss),
    }
}

/// Reads a row of a cache of bytes.
pub fn read_bytes(row: Option<CacheRow>, now: u64) -> (result: Result<
    Cached<Vec<u8>>,
    DiskCacheError,
>)
    ensures
        match result {
            Ok(Cached::Hit(content)) => cached_bytes(row_view(row), now as int) == Some(
                Cached::Hit(content@),
            ),
            Ok(Cached::Expired) => cached_bytes(row_view(row), now as int) == Some(
                Cached::<Seq<u8>>::Expired,
            ),
            Ok(Cached::Miss) => cached_bytes(row_view(row), now as int) == Some(
                Cached::<Seq<u8>>::Miss,
            ),
            Err(error) => cached_bytes(row_view(row), now as int) is None && error
                == DiskCacheError::Bincode(bytes_error(row_view(row)->0.value)),
        },
{
    match read_row(row, now) {
        Cached::Hit(value) => match decode_bytes(&value) {
            Ok(content) => Ok(Cached::Hit(content)),
            Err(error) => Err(error),
        },
        Cached::Expired => Ok(Cached::Expired),
        Cached::Miss => Ok(Cached::Miss),
    }
}

proof fn lemma_unframed_undoes_framed(bytes: Seq<u8>, rest: Seq<u8>)
    requires
        bytes.len() <= u64::MAX,
    ensures
        unframed(framed(bytes) + rest) == Some(bytes),
{
    vstd::bytes::lemma_auto_spec_u64_to_from_le_bytes();
    let all = framed(bytes) + rest;
    let count = spec_u64_to_le_bytes(bytes.len() as u64);
    assert(all.take(8) =~= count);
    assert(all.subrange(8, 8 + bytes.len() as int) =~= bytes);
}

/// A cache of bytes gives back what was written until the row expires, and
/// nothing from then on.
pub proof fn law_bytes_are_read_as_written(
    bytes: Seq<u8>,
    written_at: int,
    expires_in_seconds: int,
    read_at: int,
)
    requires
        bytes.len() <= u64::MAX,
    ensures
        cached_bytes(Some(row_of(framed(bytes), written_at, expires_in_seconds)), read_at) == Some(
            if read_at < written_at + expires_in_seconds {
                Cached::Hit(bytes)
            } else {
                Cached::Expired
            },
        ),
{
    lemma_unframed_undoes_framed(bytes, Seq::empty());
    assert(framed(bytes) + Seq::empty() =~= framed(bytes));
}

/// A cache of texts gives back what was written until the row expires, and
/// nothing from then on.
pub proof fn law_text_is_read_as_written(
    text: Seq<char>,
    written_at: int,
    expires_in_seconds: int,
    read_at: int,
)
    requires
        encode_utf8(text).len() <= u64::MAX,
    ensures
        cached_text(
            Some(row_of(framed(encode_utf8(text)), written_at, expires_in_seconds)),
            read_at,
        ) == Some(
            if read_at < written_at + expires_in_seconds {
                Cached::Hit(text)
            } else {
                Cached::Expired
            },
        ),
{
    let bytes = encode_utf8(text);
    lemma_unframed_undoes_framed(bytes, Seq::empty());
    assert(framed(bytes) + Seq::empty() =~= framed(bytes));
    vstd::utf8::encode_utf8_valid_utf8(text);
    vstd::utf8::encode_utf8_decode_utf8(text);
}

/// What is done to a cache.
pub enum CacheOperation {
    /// A row is written under a key, in place of the one that stands there.
    Write { key: Seq<u8>, row: CacheRowView },
    /// A key is looked up at the second `now`. A row that does not count any more is
    /// removed.
    LookUp { key: Seq<u8>, now: int },
}

/// The row under a key.
pub open spec fn row_under(rows: Map<Seq<u8>, CacheRowView>, key: Seq<u8>) -> Option<CacheRowView> {
    if rows.contains_key(key) {
        Some(rows[key])
    } else {
        None
    }
}

/// The rows of a cache after something has been done to it.
pub open spec fn rows_after(
    rows: Map<Seq<u8>, CacheRowView>,
    operation: CacheOperation,
) -> Map<Seq<u8>, CacheRowView> {
    match operation {
        CacheOperation::Write { key, row } => rows.insert(key, row),
        CacheOperation::LookUp { key, now } => if cached(row_under(rows, key), now) is Expired {
            rows.remove(key)
        } else {
            rows
        },
    }
}

/// The rows of a cache after all that has been done to it.
pub open spec fn rows_after_all(
    rows: Map<Seq<u8>, CacheRowView>,
    operations: Seq<CacheOperation>,
) -> Map<Seq<u8>, CacheRowView>
    decreases operations.len(),
{
    if operations.len() == 0 {
        rows
    } else {
        rows_after(rows_after_all(rows, operations.drop_last()), operations.last())
    }
}

/// The value that a cache gives for a key, `None` where it gives none.
pub open spec fn given<T>(cached: Cached<T>) -> Option<T> {
    match cached {
        Cached::Hit(value) => Some(value),
        _ => None,
    }
}

/// Whether an operation does not write a key, nor look it up later than at the
/// second `now`.
pub open spec fn leaves_key(operation: CacheOperation, key: Seq<u8>, now: int) -> bool {
    match operation {
        CacheOperation::Write { key: other, .. } => other != key,
        CacheOperation::LookUp { key: other, now: at } => other == key ==> at <= now,
    }
}

proof fn lemma_row_stays(
    rows: Map<Seq<u8>, CacheRowView>,
    key: Seq<u8>,
    operations: Seq<CacheOperation>,
    now: int,
)
    requires
        rows.contains_key(key),
        forall|i: int|
            0 <= i < operations.len() ==> leaves_key(#[trigger] operations[i], key, now),
    ensures
        ({
            let row = row_under(rows_after_all(rows, operations), key);
            row == Some(rows[key]) || (row is None && rows[key].expiry <= now)
        }),
    decreases operations.len(),
{
    if operations.len() > 0 {
        let front = operations.drop_last();
        assert(forall|i: int| 0 <= i < front.len() ==> front[i] == operations[i]);
        lemma_row_stays(rows, key, front, now);
        assert(leaves_key(operations[operations.len() - 1], key, now));
    }
}

/// Whatever was written before, the last bytes that were written under a key decide
/// what the key gives and until when, also where an earlier row would have lasted
/// longer. What is done to other keys in between does not count.
pub proof fn law_last_bytes_count(
    rows: Map<Seq<u8>, CacheRowView>,
    key: Seq<u8>,
    bytes: Seq<u8>,
    written_at: int,
    expires_in_seconds: int,
    later: Seq<CacheOperation>,
    read_at: int,
)
    requires
        bytes.len() <= u64::MAX,
        forall|i: int| 0 <= i < later.len() ==> leaves_key(#[trigger] later[i], key, read_at),
    ensures
        ({
            let row = row_of(framed(bytes), written_at, expires_in_seconds);
            let written = rows_after(rows, CacheOperation::Write { key: key, row: row });
            let found = cached_bytes(row_under(rows_after_all(written, later), key), read_at);
            found matches Some(found) && given(found) == (if read_at < written_at
                + expires_in_seconds {
                Some(bytes)
            } else {
                None
            })
        }),
{
    let row = row_of(framed(bytes), written_at, expires_in_seconds);
    lemma_row_stays(rows.insert(key, row), key, later, read_at);
    law_bytes_are_read_as_written(bytes, written_at, expires_in_seconds, read_at);
}

/// Whatever was written before, the last text that was written under a key decides
/// what the key gives and until when, also where an earlier row would have lasted
/// longer. What is done to other keys in between does not count.
pub proof fn law_last_text_counts(
    rows: Map<Seq<u8>, CacheRowView>,
    key: Seq<u8>,
    text: Seq<char>,
    written_at: int,
    expires_in_seconds: int,
    later: Seq<CacheOperation>,
    read_at: int,
)
    requires
        encode_utf8(text).len() <= u64::MAX,
        forall|i: int| 0 <= i < later.len() ==> leaves_key(#[trigger] later[i], key, read_at),
    ensures
        ({
            let row = row_of(framed(encode_utf8(text)), written_at, expires_in_seconds);
            let written = rows_after(rows, CacheOperation::Write { key: key, row: row });
            let found = cached_text(row_under(rows_after_all(written, later), key), read_at);
            found matches Some(found) && given(found) == (if read_at < written_at
                + expires_in_seconds {
                Some(text)
            } else {
                None
            })
        }),
{
    let row = row_of(framed(encode_utf8(text)), written_at, expires_in_seconds);
    lemma_row_stays(rows.insert(key, row), key, later, read_at);
    law_text_is_read_as_written(text, written_at, expires_in_seconds, read_at);
}

/// Writing or looking up a key changes nothing under any other key.
pub proof fn law_other_keys_stay(
    rows: Map<Seq<u8>, CacheRowView>,
    operation: CacheOperation,
    key: Seq<u8>,
)
    requires
        operation matches CacheOperation::Write { key: other, .. } ==> other != key,
        operation matches CacheOperation::LookUp { key: other, .. } ==> other != key,
    ensures
        row_under(rows_after(rows, operation), key) == row_under(rows, key),
{
}

/// Looking up a key changes nothing that the cache gives from then on: not under
/// that key, and not under any other.
pub proof fn law_lookups_change_nothing(
    rows: Map<Seq<u8>, CacheRowView>,
    key: Seq<u8>,
    now: int,
    other: Seq<u8>,
    later: int,
)
    requires
        now <= later,
    ensures
        given(
            cached(
                row_under(rows_after(rows, CacheOperation::LookUp { key: key, now: now }), other),
                later,
            ),
        ) == given(cached(row_under(rows, other), later)),
{
}

/// Different texts have different keys.
pub proof fn law_text_keys_differ(left: Seq<char>, right: Seq<char>)
    requires
        encode_utf8(left).len() <= u64::MAX,
        encode_utf8(right).len() <= u64::MAX,
        framed(encode_utf8(left)) == framed(encode_utf8(right)),
    ensures
        left == right,
{
    lemma_unframed_undoes_framed(encode_utf8(left), Seq::empty());
    lemma_unframed_undoes_framed(encode_utf8(right), Seq::empty());
    vstd::utf8::encode_utf8_decode_utf8(left);
    vstd::utf8::encode_utf8_decode_utf8(right);
}

/// Different settings have different keys, so no setting is answered with the
/// value for another.
pub proof fn law_settings_keys_differ(
    left: (Seq<char>, bool, Option<u32>),
    right: (Seq<char>, bool, Option<u32>),
)
    requires
        encode_utf8(left.0).len() <= u64::MAX,
        encode_utf8(right.0).len() <= u64::MAX,
        settings_bytes(left.0, left.1, left.2) == settings_bytes(right.0, right.1, right.2),
    ensures
        left == right,
{
    vstd::bytes::lemma_auto_spec_u64_to_from_le_bytes();
    vstd::bytes::lemma_auto_spec_u32_to_from_le_bytes();
    lemma_settings_parts(left.0, left.1, left.2);
    lemma_settings_parts(right.0, right.1, right.2);
    vstd::utf8::encode_utf8_decode_utf8(left.0);
    vstd::utf8::encode_utf8_decode_utf8(right.0);
    let rest = optional_number(left.2);
    assert(rest == optional_number(right.2));
    match (left.2, right.2) {
        (Some(a), Some(b)) => {
            assert(rest.skip(1) =~= spec_u32_to_le_bytes(a));
            assert(rest.skip(1) =~= spec_u32_to_le_bytes(b));
        },
        _ => {
            assert(rest[0] == if left.2 is Some {
                1u8
            } else {
                0u8
            });
            assert(optional_number(right.2)[0] == if right.2 is Some {
                1u8
            } else {
                0u8
            });
        },
    }
}

proof fn lemma_settings_parts(text: Seq<char>, flag: bool, number: Option<u32>)
    requires
        encode_utf8(text).len() <= u64::MAX,
    ensures
        ({
            let all = settings_bytes(text, flag, number);
            let at = 8 + encode_utf8(text).len() as int;
            &&& unframed(all) == Some(encode_utf8(text))
            &&& at < all.len()
            &&& all[at] == if flag {
                1u8
            } else {
                0u8
            }
            &&& all.skip(at + 1) == optional_number(number)
        }),
{
    vstd::bytes::lemma_auto_spec_u64_to_from_le_bytes();
    let mark = seq![
        if flag {
            1u8
        } else {
            0u8
        },
    ];
    let all = settings_bytes(text, flag, number);
    let head = framed(encode_utf8(text));
    let at = 8 + encode_utf8(text).len() as int;
    assert(head.len() == at);
    lemma_unframed_undoes_framed(encode_utf8(text), mark + optional_number(number));
    assert(all =~= head + (mark + optional_number(number)));
    assert(all.skip(at + 1) =~= optional_number(number));
}

/// A row that still counts is read by the number in its first eight bytes: that many
/// bytes behind them are its value. Where there are fewer, or where a text is asked for
/// and they are none, reading fails. A row that does not count is never read, and a
/// missing row is no failure.
#[verifier::rlimit(5)]
pub proof fn law_damaged_rows_are_not_read(row: CacheRowView, count: nat, now: int)
    requires
        row.value.len() >= 8 ==> count == spec_u64_from_le_bytes(row.value.take(8)),
    ensures
        ({
            let whole = row.value.len() >= 8 && 8 + count <= row.value.len();
            let content = row.value.skip(8).take(count as int);
            let bytes = cached_bytes(Some(row), now);
            let text = cached_text(Some(row), now);
            &&& now < row.expiry && !whole ==> bytes is None && text is None
            &&& now < row.expiry && whole ==> bytes == Some(Cached::Hit(content))
            &&& now < row.expiry && whole && valid_utf8(content) ==> text == Some(
                Cached::Hit(decode_utf8(content)),
            )
            &&& now < row.expiry && whole && !valid_utf8(content) ==> text is None
            &&& row.expiry <= now ==> bytes == Some(Cached::<Seq<u8>>::Expired)
            &&& row.expiry <= now ==> text == Some(Cached::<Seq<char>>::Expired)
        }),
        cached_bytes(None, now) == Some(Cached::<Seq<u8>>::Miss),
        cached_text(None, now) == Some(Cached::<Seq<char>>::Miss),
{
    if row.value.len() >= 8 && 8 + count <= row.value.len() {
        assert(row.value.subrange(8, 8 + count as int) =~= row.value.skip(8).take(count as int));
    }
}

} // verus!
