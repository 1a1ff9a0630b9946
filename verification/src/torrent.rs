//! Torrent metadata and the info hash: the SHA-1 digest of the canonical
//! encoding of the content descriptor.

use crate::bencode::{
    bytes_encoding, dict_encoding, encode_bytes, encode_integer, encode_list, integer_encoding,
    item_views, lemma_three_keys_in_order, lex_lt, lex_lt_from, list_encoding, Dictionary,
};
use sha1::Digest;
use vstd::prelude::*;
use vstd::utf8::encode_utf8;

verus! {

/// A bootstrap hint for the distributed hash table: a host and a port.
#[derive(Debug, Clone)]
pub struct Node(pub String, pub i64);

/// One file of a multi-file torrent.
#[derive(Debug, Clone)]
pub struct TorrentFile {
    pub path: Vec<String>,
    pub crc32: Option<String>,
    pub md5: Option<String>,
    pub sha1: Option<String>,
    pub mtime: Option<String>,
    pub length: i64,
}

/// The content descriptor: the part of the metadata that the info hash covers.
#[derive(Debug, Clone)]
pub struct Info {
    pub name: String,
    pub collections: Option<Vec<String>>,
    pub pieces: Vec<u8>,
    pub piece_length: i64,
    pub length: Option<i64>,
    pub files: Option<Vec<TorrentFile>>,
    pub private: Option<u8>,
    pub path: Option<Vec<String>>,
    pub source: Option<String>,
    pub root_hash: Option<String>,
}

/// The metadata of one torrent.
#[derive(Debug, Clone)]
pub struct Torrent {
    pub info: Info,
    pub announce: Option<String>,
    pub nodes: Option<Vec<Node>>,
    pub encoding: Option<String>,
    pub httpseeds: Option<Vec<String>>,
    pub announce_list: Option<Vec<Vec<String>>>,
    pub creation_date: Option<i64>,
    pub comment: Option<String>,
    pub created_by: Option<String>,
    pub url_list: Option<Vec<String>>,
}

/// Why metadata was rejected.
#[derive(Debug, Clone, Copy, PartialEq, Eq, Structural)]
pub enum MetadataError {
    /// Neither or both of `length` and `files` are present, or `pieces` is not
    /// a whole number of 20-byte digests.
    MalformedMetadata,
}

/// The SHA-1 digest of a byte sequence.
pub uninterp spec fn sha1_digest(data: Seq<u8>) -> Seq<u8>;

/// Calls `sha1::Sha1::digest` on the whole input. The contract only gives
/// the digest its name: it is a function of the input bytes alone.
#[verifier::external_body]
fn sha1_of(data: &[u8]) -> (digest: [u8; 20])
    ensures
        digest@ == sha1_digest(data@),
{
    sha1::Sha1::digest(data).into()
}

/// A dictionary key: the bytes of its name.
pub open spec fn key(name: Seq<char>) -> Seq<u8> {
    encode_utf8(name)
}

/// A text as a byte string of its UTF-8 bytes.
pub open spec fn text_encoding(s: Seq<char>) -> Seq<u8> {
    bytes_encoding(encode_utf8(s))
}

/// A list of texts.
pub open spec fn text_list_encoding(items: Seq<String>) -> Seq<u8> {
    list_encoding(items.map_values(|s: String| text_encoding(s@)))
}

/// `m` with `name` set to the text, if there is one.
pub open spec fn with_text(
    m: Map<Seq<u8>, Seq<u8>>,
    name: Seq<char>,
    text: Option<String>,
) -> Map<Seq<u8>, Seq<u8>> {
    match text {
        Some(s) => m.insert(key(name), text_encoding(s@)),
        None => m,
    }
}

/// `m` with `name` set to the list of texts, if there is one.
pub open spec fn with_text_list(
    m: Map<Seq<u8>, Seq<u8>>,
    name: Seq<char>,
    texts: Option<Vec<String>>,
) -> Map<Seq<u8>, Seq<u8>> {
    match texts {
        Some(l) => m.insert(key(name), text_list_encoding(l@)),
        None => m,
    }
}

/// `m` with `name` set to the integer, if there is one.
pub open spec fn with_integer(
    m: Map<Seq<u8>, Seq<u8>>,
    name: Seq<char>,
    v: Option<int>,
) -> Map<Seq<u8>, Seq<u8>> {
    match v {
        Some(i) => m.insert(key(name), integer_encoding(i)),
        None => m,
    }
}

/// The fields of a file that are present, by their names on the wire.
pub open spec fn file_map(f: TorrentFile) -> Map<Seq<u8>, Seq<u8>> {
    let m = Map::<Seq<u8>, Seq<u8>>::empty().insert(key("length"@), integer_encoding(f.length as int))
        .insert(key("path"@), text_list_encoding(f.path@));
    let m = with_text(m, "crc32"@, f.crc32);
    let m = with_text(m, "md5"@, f.md5);
    let m = with_text(m, "sha1"@, f.sha1);
    with_text(m, "mtime"@, f.mtime)
}

/// The canonical encoding of a file.
pub open spec fn file_encoding(f: TorrentFile) -> Seq<u8> {
    dict_encoding(file_map(f))
}

/// A list of files.
pub open spec fn file_list_encoding(files: Seq<TorrentFile>) -> Seq<u8> {
    list_encoding(files.map_values(|f: TorrentFile| file_encoding(f)))
}

/// The fields of the content descriptor that are present, by their names on the wire.
pub open spec fn info_map(info: Info) -> Map<Seq<u8>, Seq<u8>> {
    let m = Map::<Seq<u8>, Seq<u8>>::empty().insert(key("name"@), text_encoding(info.name@)).insert(
        key("pieces"@),
        bytes_encoding(info.pieces@),
    ).insert(key("piece length"@), integer_encoding(info.piece_length as int));
    let m = with_integer(
        m,
        "length"@,
        match info.length {
            Some(l) => Some(l as int),
            None => None,
        },
    );
    let m = match info.files {
        Some(files) => m.insert(key("files"@), file_list_encoding(files@)),
        None => m,
    };
    let m = with_integer(
        m,
        "private"@,
        match info.private {
            Some(p) => Some(p as int),
            None => None,
        },
    );
    let m = with_text_list(m, "path"@, info.path);
    let m = with_text(m, "root hash"@, info.root_hash);
    let m = with_text(m, "source"@, info.source);
    with_text_list(m, "collections"@, info.collections)
}

/// The canonical encoding of the content descriptor: a dictionary of the
/// fields that are present, in ascending order of their names.
pub open spec fn info_encoding(info: Info) -> Seq<u8> {
    dict_encoding(info_map(info))
}

/// The info hash as a value: the digest of the canonical encoding.
pub open spec fn info_hash(info: Info) -> Seq<u8> {
    sha1_digest(info_encoding(info))
}

/// Exactly one of `length` and `files` is present, and `pieces` is a whole
/// number of 20-byte digests.
pub open spec fn info_is_valid(info: Info) -> bool {
    &&& (info.length is Some) != (info.files is Some)
    &&& info.pieces@.len() % 20 == 0
}

fn insert_text(dict: &mut Dictionary, name: &str, text: &Option<String>)
    requires
        old(dict).well_formed(),
    ensures
        final(dict).well_formed(),
        final(dict)@ == with_text(old(dict)@, name@, *text),
{
    if let Some(s) = text {
        dict.insert(name.as_bytes_vec(), encode_bytes(s.as_str().as_bytes()));
    }
}

fn insert_integer(dict: &mut Dictionary, name: &str, v: i64)
    requires
        old(dict).well_formed(),
    ensures
        final(dict).well_formed(),
        final(dict)@ == old(dict)@.insert(key(name@), integer_encoding(v as int)),
{
    dict.insert(name.as_bytes_vec(), encode_integer(v));
}

fn encode_text_list(items: &Vec<String>) -> (out: Vec<u8>)
    ensures
        out@ == text_list_encoding(items@),
{
    let mut encoded: Vec<Vec<u8>> = Vec::new();
    let mut i: usize = 0;
    while i < items.len()
        invariant
            i <= items.len(),
            encoded@.len() == i,
            forall|j: int| 0 <= j < i ==> encoded@[j]@ == text_encoding(items@[j]@),
        decreases items.len() - i,
    {
        encoded.push(encode_bytes(items[i].as_str().as_bytes()));
        i += 1;
    }
    proof {
        assert(item_views(encoded@) =~= items@.map_values(|s: String| text_encoding(s@)));
    }
    encode_list(&encoded)
}

fn insert_text_list(dict: &mut Dictionary, name: &str, texts: &Option<Vec<String>>)
    requires
        old(dict).well_formed(),
    ensures
        final(dict).well_formed(),
        final(dict)@ == with_text_list(old(dict)@, name@, *texts),
{
    if let Some(l) = texts {
        dict.insert(name.as_bytes_vec(), encode_text_list(l));
    }
}

/// Encodes one file as a dictionary of its fields.
pub fn encode_file(f: &TorrentFile) -> (out: Vec<u8>)
    ensures
        out@ == file_encoding(*f),
{
    let mut dict = Dictionary::new();
    insert_integer(&mut dict, "length", f.length);
    dict.insert("path".as_bytes_vec(), encode_text_list(&f.path));
    insert_text(&mut dict, "crc32", &f.crc32);
    insert_text(&mut dict, "md5", &f.md5);
    insert_text(&mut dict, "sha1", &f.sha1);
    insert_text(&mut dict, "mtime", &f.mtime);
    dict.encode()
}

fn encode_file_list(files: &Vec<TorrentFile>) -> (out: Vec<u8>)
    ensures
        out@ == file_list_encoding(files@),
{
    let mut encoded: Vec<Vec<u8>> = Vec::new();
    let mut i: usize = 0;
    while i < files.len()
        invariant
            i <= files.len(),
            encoded@.len() == i,
            forall|j: int| 0 <= j < i ==> encoded@[j]@ == file_encoding(files@[j]),
        decreases files.len() - i,
    {
        encoded.push(encode_file(&files[i]));
        i += 1;
    }
    proof {
        assert(item_views(encoded@) =~= files@.map_values(|f: TorrentFile| file_encoding(f)));
    }
    encode_list(&encoded)
}

/// Encodes the content descriptor canonically. The fields are inserted as they
/// come; the dictionary orders them.
pub fn encode_info(info: &Info) -> (out: Vec<u8>)
    ensures
        out@ == info_encoding(*info),
{
    let mut dict = Dictionary::new();
    insert_text_value(&mut dict, "name", &info.name);
    dict.insert("pieces".as_bytes_vec(), encode_bytes(info.pieces.as_slice()));
    insert_integer(&mut dict, "piece length", info.piece_length);
    if let Some(length) = info.length {
        insert_integer(&mut dict, "length", length);
    }
    if let Some(files) = &info.files {
        dict.insert("files".as_bytes_vec(), encode_file_list(files));
    }
    if let Some(private) = info.private {
        insert_integer(&mut dict, "private", private as i64);
    }
    insert_text_list(&mut dict, "path", &info.path);
    insert_text(&mut dict, "root hash", &info.root_hash);
    insert_text(&mut dict, "source", &info.source);
    insert_text_list(&mut dict, "collections", &info.collections);
    dict.encode()
}

fn insert_text_value(dict: &mut Dictionary, name: &str, text: &String)
    requires
        old(dict).well_formed(),
    ensures
        final(dict).well_formed(),
        final(dict)@ == old(dict)@.insert(key(name@), text_encoding(text@)),
{
    dict.insert(name.as_bytes_vec(), encode_bytes(text.as_str().as_bytes()));
}

/// Computes the info hash: the SHA-1 digest of the canonical encoding of the
/// content descriptor. It depends on the fields' contents alone.
pub fn calculate_info_hash(info: &Info) -> (hash: [u8; 20])
    ensures
        hash@ == info_hash(*info),
{
    let encoded = encode_info(info);
    sha1_of(encoded.as_slice())
}

/// Accepts a content descriptor that holds exactly one of `length` and `files`
/// and whose `pieces` is a whole number of 20-byte digests.
pub fn validate_info(info: &Info) -> (r: Result<(), MetadataError>)
    ensures
        r is Ok <==> info_is_valid(*info),
        r is Err ==> r == Err::<(), MetadataError>(MetadataError::MalformedMetadata),
{
    if info.length.is_some() == info.files.is_some() {
        return Err(MetadataError::MalformedMetadata);
    }
    if info.pieces.len() % 20 != 0 {
        return Err(MetadataError::MalformedMetadata);
    }
    Ok(())
}

/// The three keys that every content descriptor holds are emitted as `name`,
/// `piece length`, `pieces`, also when they were inserted in the reverse order.
pub proof fn lemma_required_keys_order(name: Seq<u8>, piece_length: Seq<u8>, pieces: Seq<u8>)
    ensures
        lex_lt(key("name"@), key("piece length"@)),
        lex_lt(key("piece length"@), key("pieces"@)),
        dict_encoding(
            Map::<Seq<u8>, Seq<u8>>::empty().insert(key("pieces"@), pieces).insert(
                key("piece length"@),
                piece_length,
            ).insert(key("name"@), name),
        ) == seq![100u8] + bytes_encoding(key("name"@)) + name + bytes_encoding(
            key("piece length"@),
        ) + piece_length + bytes_encoding(key("pieces"@)) + pieces + seq![101u8],
{
    reveal_strlit("name");
    reveal_strlit("piece length");
    reveal_strlit("pieces");
    vstd::utf8::is_ascii_chars_encode_utf8("name"@);
    vstd::utf8::is_ascii_chars_encode_utf8("piece length"@);
    vstd::utf8::is_ascii_chars_encode_utf8("pieces"@);
    let a = key("name"@);
    let b = key("piece length"@);
    let c = key("pieces"@);
    assert(a[0] == 110u8 && b[0] == 112u8);
    assert(lex_lt(a, b));
    assert(b[0] == c[0] && b[1] == c[1] && b[2] == c[2] && b[3] == c[3] && b[4] == c[4]);
    assert(b[5] == 32u8 && c[5] == 115u8);
    assert(lex_lt(b, c)) by {
        reveal_with_fuel(lex_lt_from, 8);
    }
    lemma_three_keys_in_order(a, name, b, piece_length, c, pieces);
}

/// The fields of a content descriptor as they were found in a metadata file:
/// any of them may be missing.
#[derive(Debug, Clone)]
pub struct RawInfo {
    pub name: Option<String>,
    pub collections: Option<Vec<String>>,
    pub pieces: Option<Vec<u8>>,
    pub piece_length: Option<i64>,
    pub length: Option<i64>,
    pub files: Option<Vec<TorrentFile>>,
    pub private: Option<u8>,
    pub path: Option<Vec<String>>,
    pub source: Option<String>,
    pub root_hash: Option<String>,
}

/// What was found makes a content descriptor: `name`, `pieces` and
/// `piece length` are there, exactly one of `length` and `files` is, and
/// `pieces` is a whole number of 20-byte digests.
pub open spec fn raw_is_complete(raw: RawInfo) -> bool {
    &&& raw.name is Some
    &&& raw.pieces is Some
    &&& raw.piece_length is Some
    &&& (raw.length is Some) != (raw.files is Some)
    &&& raw.pieces.unwrap()@.len() % 20 == 0
}

/// The content descriptor that holds exactly the fields found.
pub open spec fn info_of(raw: RawInfo) -> Info {
    Info {
        name: raw.name.unwrap(),
        collections: raw.collections,
        pieces: raw.pieces.unwrap(),
        piece_length: raw.piece_length.unwrap(),
        length: raw.length,
        files: raw.files,
        private: raw.private,
        path: raw.path,
        source: raw.source,
        root_hash: raw.root_hash,
    }
}

/// Makes a content descriptor of the fields found in a metadata file, and
/// rejects them as malformed when a required field is missing, when both or
/// neither of `length` and `files` are there, or when `pieces` is not a whole
/// number of digests.
pub fn complete_info(raw: RawInfo) -> (r: Result<Info, MetadataError>)
    ensures
        r is Ok <==> raw_is_complete(raw),
        r matches Ok(info) ==> info == info_of(raw) && info_is_valid(info),
        r matches Err(e) ==> e == MetadataError::MalformedMetadata,
{
    let RawInfo {
        name,
        collections,
        pieces,
        piece_length,
        length,
        files,
        private,
        path,
        source,
        root_hash,
    } = raw;
    match (name, pieces, piece_length) {
        (Some(name), Some(pieces), Some(piece_length)) => {
            let info = Info {
                name,
                collections,
                pieces,
                piece_length,
                length,
                files,
                private,
                path,
                source,
                root_hash,
            };
            match validate_info(&info) {
                Ok(()) => Ok(info),
                Err(e) => Err(e),
            }
        },
        _ => Err(MetadataError::MalformedMetadata),
    }
}

/// Two optional texts are both absent or read the same.
pub open spec fn same_text(a: Option<String>, b: Option<String>) -> bool {
    match (a, b) {
        (Some(x), Some(y)) => x@ == y@,
        (None, None) => true,
        _ => false,
    }
}

/// Two lists hold texts that read the same, in the same order.
pub open spec fn same_texts(a: Seq<String>, b: Seq<String>) -> bool {
    a.len() == b.len() && forall|i: int| 0 <= i < a.len() ==> a[i]@ == b[i]@
}

/// Two optional lists are both absent or hold the same texts.
pub open spec fn same_text_list(a: Option<Vec<String>>, b: Option<Vec<String>>) -> bool {
    match (a, b) {
        (Some(x), Some(y)) => same_texts(x@, y@),
        (None, None) => true,
        _ => false,
    }
}

/// Two files have the same field contents.
pub open spec fn same_file(a: TorrentFile, b: TorrentFile) -> bool {
    &&& same_texts(a.path@, b.path@)
    &&& same_text(a.crc32, b.crc32)
    &&& same_text(a.md5, b.md5)
    &&& same_text(a.sha1, b.sha1)
    &&& same_text(a.mtime, b.mtime)
    &&& a.length == b.length
}

/// Two optional lists of files are both absent or hold the same files.
pub open spec fn same_files(a: Option<Vec<TorrentFile>>, b: Option<Vec<TorrentFile>>) -> bool {
    match (a, b) {
        (Some(x), Some(y)) => x@.len() == y@.len() && forall|i: int|
            0 <= i < x@.len() ==> same_file(x@[i], y@[i]),
        (None, None) => true,
        _ => false,
    }
}

/// Two content descriptors have the same field contents, wherever their
/// strings and vectors live.
pub open spec fn same_info(a: Info, b: Info) -> bool {
    &&& a.name@ == b.name@
    &&& a.pieces@ == b.pieces@
    &&& a.piece_length == b.piece_length
    &&& a.length == b.length
    &&& a.private == b.private
    &&& same_files(a.files, b.files)
    &&& same_text_list(a.path, b.path)
    &&& same_text(a.root_hash, b.root_hash)
    &&& same_text(a.source, b.source)
    &&& same_text_list(a.collections, b.collections)
}

proof fn lemma_same_texts(a: Seq<String>, b: Seq<String>)
    requires
        same_texts(a, b),
    ensures
        text_list_encoding(a) == text_list_encoding(b),
{
    assert(a.map_values(|s: String| text_encoding(s@)) =~= b.map_values(
        |s: String| text_encoding(s@),
    ));
}

proof fn lemma_same_file(a: TorrentFile, b: TorrentFile)
    requires
        same_file(a, b),
    ensures
        file_encoding(a) == file_encoding(b),
{
    lemma_same_texts(a.path@, b.path@);
    assert(file_map(a) =~= file_map(b));
}

/// Two content descriptors with the same field contents have the same
/// canonical encoding and so the same info hash, however each of them was put
/// together.
pub proof fn lemma_info_hash_deterministic(a: Info, b: Info)
    requires
        same_info(a, b),
    ensures
        info_encoding(a) == info_encoding(b),
        info_hash(a) == info_hash(b),
{
    if let (Some(x), Some(y)) = (a.files, b.files) {
        assert forall|i: int| 0 <= i < x@.len() implies file_encoding(x@[i]) == file_encoding(
            y@[i],
        ) by {
            lemma_same_file(x@[i], y@[i]);
        }
        assert(x@.map_values(|f: TorrentFile| file_encoding(f)) =~= y@.map_values(
            |f: TorrentFile| file_encoding(f),
        ));
    }
    if let (Some(x), Some(y)) = (a.path, b.path) {
        lemma_same_texts(x@, y@);
    }
    if let (Some(x), Some(y)) = (a.collections, b.collections) {
        lemma_same_texts(x@, y@);
    }
    assert(info_map(a) =~= info_map(b));
}

} // verus!
