//! Analysis of an info dictionary: what it describes, or the first rule that it breaks.

use crate::bencode::{
    decoder_tokens, document, entry_trees, read_document, read_tokens, token_models, Entry, Read,
    Token,
};
use crate::metainfo::fields::{
    as_pairs, bytes_field, dictionary, get, integer_field, key_bytes, length, length_field, lookup,
    optional_bytes, optional_integer, required, required_field, Pairs,
};
use crate::metainfo::files::{file_models, FileModel, TorrentFile};
use crate::metainfo::hybrid::{check_hybrid, layouts_agree};
use crate::metainfo::layout::{
    add_up, aligned_pieces, check_v1, content_count, content_size, flat_pieces, padding_size,
    piece_space,
};
use crate::metainfo::lists::{flat_listing, v1_files, Listing};
use crate::metainfo::paths::{
    any_dangling, content_paths, files_conflict, has_dangling_link, in_conflict, sorted_paths,
};
use crate::metainfo::trees::{tree, tree_listing};
use crate::reason::Reason;
use crate::text::{display, display_text, is_utf8};
use vstd::arithmetic::power2::is_pow2;
use vstd::prelude::*;

verus! {

/// The largest info dictionary that is analysed.
pub const MAX_BYTES: usize = 4 * 1024 * 1024;

/// The semantic capacity: a conservative budget for the values and the paths of a dictionary.
pub const PARSE_BUDGET: usize = 64 * 1024 * 1024;

/// The number of containers that may be open at once.
pub const MAX_DEPTH: usize = 64;

/// The layouts that a dictionary carries.
#[derive(Clone, Copy, Debug, PartialEq, Eq, Structural)]
pub enum Format {
    Unknown,
    V1,
    V2,
    Hybrid,
}

impl Format {
    /// The stable label of a format.
    pub open spec fn text(self) -> Seq<char> {
        match self {
            Format::Unknown => "unknown"@,
            Format::V1 => "v1"@,
            Format::V2 => "v2"@,
            Format::Hybrid => "hybrid"@,
        }
    }

    /// The stable label of the format.
    pub fn label(self) -> (label: &'static str)
        ensures
            label@ == self.text(),
    {
        match self {
            Format::Unknown => "unknown",
            Format::V1 => "v1",
            Format::V2 => "v2",
            Format::Hybrid => "hybrid",
        }
    }
}

/// The verdict on a dictionary.
#[derive(Clone, Copy, Debug, PartialEq, Eq, Structural)]
pub enum Status {
    Valid,
    Invalid,
    Unsupported,
}

impl Status {
    /// The stable label of a verdict.
    pub open spec fn text(self) -> Seq<char> {
        match self {
            Status::Valid => "valid"@,
            Status::Invalid => "invalid"@,
            Status::Unsupported => "unsupported"@,
        }
    }

    /// The stable label of the verdict.
    pub fn label(self) -> (label: &'static str)
        ensures
            label@ == self.text(),
    {
        match self {
            Status::Valid => "valid",
            Status::Invalid => "invalid",
            Status::Unsupported => "unsupported",
        }
    }
}

/// What a valid info dictionary describes.
#[derive(Debug)]
pub struct ParsedInfo {
    pub format: Format,
    pub name: String,
    pub total_length: u64,
    pub piece_space_length: u64,
    pub padding_length: u64,
    pub file_count: usize,
    pub piece_length: u64,
    pub piece_count: usize,
    pub private: Option<bool>,
    pub files: Vec<TorrentFile>,
    pub encoding_lossy: bool,
}

/// The model of a valid info dictionary.
pub struct InfoModel {
    pub format: Format,
    pub name: Seq<char>,
    pub total_length: int,
    pub piece_space_length: int,
    pub padding_length: int,
    pub file_count: int,
    pub piece_length: int,
    pub piece_count: int,
    pub private: Option<bool>,
    pub files: Seq<FileModel>,
    pub encoding_lossy: bool,
}

impl View for ParsedInfo {
    type V = InfoModel;

    open spec fn view(&self) -> InfoModel {
        InfoModel {
            format: self.format,
            name: self.name@,
            total_length: self.total_length as int,
            piece_space_length: self.piece_space_length as int,
            padding_length: self.padding_length as int,
            file_count: self.file_count as int,
            piece_length: self.piece_length as int,
            piece_count: self.piece_count as int,
            private: self.private,
            files: file_models(self.files@),
            encoding_lossy: self.encoding_lossy,
        }
    }
}

/// The outcome of an analysis.
#[derive(Debug)]
pub struct Analysis {
    pub format: Format,
    pub status: Status,
    pub reason: Option<Reason>,
    pub parsed: Option<ParsedInfo>,
}

/// The name as raw bytes: `name.utf-8` where it is valid UTF-8, else `name`.
pub open spec fn raw_name(pairs: Pairs) -> Result<Seq<u8>, Reason> {
    match bytes_field(pairs, key_bytes("name.utf-8")) {
        Err(reason) => Err(reason),
        Ok(utf8) => match bytes_field(pairs, key_bytes("name")) {
            Err(reason) => Err(reason),
            Ok(plain) => match utf8 {
                Some(name) if vstd::utf8::valid_utf8(name) => Ok(name),
                _ => match plain {
                    Some(name) => Ok(name),
                    None => Ok(seq![]),
                },
            },
        },
    }
}

/// The piece length. Where pieces are hashed as trees it is a power of two of at least 16 KiB.
pub open spec fn piece_size(pairs: Pairs, hashed_trees: bool) -> Result<int, Reason> {
    match length_field(pairs, key_bytes("piece length")) {
        Err(reason) => Err(reason),
        Ok(n) => if n == 0 || (hashed_trees && (n < 16384 || !is_pow2(n))) {
            Err(Reason::PieceLength)
        } else {
            Ok(n)
        },
    }
}

/// The private flag, which is zero or one where it is there.
pub open spec fn privacy(pairs: Pairs) -> Result<Option<bool>, Reason> {
    match integer_field(pairs, key_bytes("private")) {
        Err(reason) => Err(reason),
        Ok(None) => Ok(None),
        Ok(Some(n)) => if n == 0 {
            Ok(Some(false))
        } else if n == 1 {
            Ok(Some(true))
        } else {
            Err(Reason::PrivateFlag)
        },
    }
}

/// The files of the tree, of which there is at least one.
pub open spec fn tree_files(pairs: Pairs, budget: int) -> Listing {
    match required_field(pairs, key_bytes("file tree")) {
        Err(reason) => Err(reason),
        Ok(root) => match as_pairs(root) {
            Err(reason) => Err(reason),
            Ok(below) => match tree_listing(below, seq![], budget) {
                Err(reason) => Err(reason),
                Ok((files, left)) => if files.len() == 0 {
                    Err(Reason::EmptyFileTree)
                } else {
                    Ok((files, left))
                },
            },
        },
    }
}

/// The files that count: those of the flat list where there is one, once both layouts agree.
pub open spec fn listed_files(pairs: Pairs, format: Format, piece: int, budget: int) -> Result<
    Seq<FileModel>,
    Reason,
> {
    match format {
        Format::V2 => match tree_files(pairs, budget) {
            Err(reason) => Err(reason),
            Ok((files, _)) => Ok(files),
        },
        Format::Hybrid => match tree_files(pairs, budget) {
            Err(reason) => Err(reason),
            Ok((tree, left)) => match flat_listing(pairs, left) {
                Err(reason) => Err(reason),
                Ok((flat, _)) => match flat_pieces(pairs, flat, piece) {
                    Err(reason) => Err(reason),
                    Ok(_) => match layouts_agree(flat, tree, piece) {
                        Err(reason) => Err(reason),
                        Ok(()) => Ok(flat),
                    },
                },
            },
        },
        _ => match flat_listing(pairs, budget) {
            Err(reason) => Err(reason),
            Ok((files, _)) => Ok(files),
        },
    }
}

/// The number of pieces.
pub open spec fn piece_count(pairs: Pairs, files: Seq<FileModel>, format: Format, piece: int) -> Result<
    int,
    Reason,
> {
    if format is V2 {
        Ok(aligned_pieces(files, piece))
    } else {
        flat_pieces(pairs, files, piece)
    }
}

/// Whether the shown form of any file is lossy.
pub open spec fn any_file_lossy(files: Seq<FileModel>) -> bool {
    exists|i: int| 0 <= i < files.len() && (#[trigger] files[i]).encoding_lossy
}

/// What a dictionary of the given format describes.
pub open spec fn describe_info(pairs: Pairs, format: Format, budget: int) -> Result<
    InfoModel,
    Reason,
> {
    match raw_name(pairs) {
        Err(reason) => Err(reason),
        Ok(name) => match piece_size(pairs, format is V2 || format is Hybrid) {
            Err(reason) => Err(reason),
            Ok(piece) => match privacy(pairs) {
                Err(reason) => Err(reason),
                Ok(private) => match listed_files(pairs, format, piece, budget) {
                    Err(reason) => Err(reason),
                    Ok(files) => describe_files(pairs, format, name, piece, private, files),
                },
            },
        },
    }
}

/// What a dictionary with these files describes.
pub open spec fn describe_files(
    pairs: Pairs,
    format: Format,
    name: Seq<u8>,
    piece: int,
    private: Option<bool>,
    files: Seq<FileModel>,
) -> Result<InfoModel, Reason> {
    if piece_space(files, piece, format is V2) > u64::MAX {
        Err(Reason::LengthOverflow)
    } else {
        match piece_count(pairs, files, format, piece) {
            Err(reason) => Err(reason),
            Ok(count) => if in_conflict(content_paths(files)) {
                Err(Reason::PathConflict)
            } else if has_dangling_link(files) {
                Err(Reason::DanglingSymlink)
            } else if count > usize::MAX {
                Err(Reason::PieceCountRange)
            } else {
                Ok(
                    InfoModel {
                        format,
                        name: display_text(name),
                        total_length: content_size(files),
                        piece_space_length: piece_space(files, piece, format is V2),
                        padding_length: padding_size(files),
                        file_count: content_count(files),
                        piece_length: piece,
                        piece_count: count,
                        private,
                        files,
                        encoding_lossy: !vstd::utf8::valid_utf8(name) || any_file_lossy(files),
                    },
                )
            },
        }
    }
}

/// The format of a dictionary: a version other than two is not supported, and version two together
/// with a flat list of hashes makes a hybrid.
pub open spec fn format_of(pairs: Pairs) -> Result<Format, Reason> {
    match integer_field(pairs, key_bytes("meta version")) {
        Err(reason) => Err(reason),
        Ok(None) => Ok(Format::V1),
        Ok(Some(n)) => if n != 2 {
            Err(Reason::UnsupportedMetaVersion)
        } else if lookup(pairs, key_bytes("pieces")) is Some {
            Ok(Format::Hybrid)
        } else {
            Ok(Format::V2)
        },
    }
}

/// The format and the verdict of a dictionary with its description or the reason.
pub open spec fn judge(read: Read) -> (Format, Result<InfoModel, Reason>) {
    match read {
        Read::Failed(reason) => (Format::Unknown, Err(reason)),
        Read::Done(root, _, budget) => match as_pairs(root) {
            Err(reason) => (Format::Unknown, Err(reason)),
            Ok(pairs) => match format_of(pairs) {
                Err(reason) => (Format::Unknown, Err(reason)),
                Ok(format) => (format, describe_info(pairs, format, budget)),
            },
        },
    }
}

impl Analysis {
    /// Whether the analysis reports this format and this description or reason.
    pub open spec fn reports(self, format: Format, outcome: Result<InfoModel, Reason>) -> bool {
        &&& self.format == format
        &&& match outcome {
            Ok(model) => {
                &&& self.status is Valid
                &&& self.reason is None
                &&& self.parsed is Some
                &&& self.parsed->0@ == model
            },
            Err(reason) => {
                &&& self.status == (if reason is UnsupportedMetaVersion {
                    Status::Unsupported
                } else {
                    Status::Invalid
                })
                &&& self.reason == Some(reason)
                &&& self.parsed is None
            },
        }
    }

    /// The analysis that reports an outcome.
    fn report(format: Format, outcome: Result<ParsedInfo, Reason>) -> (analysis: Analysis)
        ensures
            outcome is Ok ==> analysis.reports(format, Ok(outcome->Ok_0@)),
            outcome is Err ==> analysis.reports(format, Err(outcome->Err_0)),
    {
        match outcome {
            Ok(parsed) => Analysis {
                format,
                status: Status::Valid,
                reason: None,
                parsed: Some(parsed),
            },
            Err(reason) => Analysis {
                format,
                status: if reason == Reason::UnsupportedMetaVersion {
                    Status::Unsupported
                } else {
                    Status::Invalid
                },
                reason: Some(reason),
                parsed: None,
            },
        }
    }
}

/// Whether `n` is a power of two.
fn is_power_of_two(n: u64) -> (power: bool)
    requires
        0 < n,
    ensures
        power == is_pow2(n as int),
{
    let mut rest: u64 = n;
    while rest % 2 == 0
        invariant
            0 < rest,
            is_pow2(n as int) == is_pow2(rest as int),
        decreases rest,
    {
        proof {
            reveal_with_fuel(is_pow2, 2);
        }
        rest = rest / 2;
    }
    proof {
        reveal_with_fuel(is_pow2, 2);
    }
    rest == 1
}

/// The name as raw bytes.
fn find_name<'a>(entries: &Vec<Entry<'a>>) -> (result: Result<Option<&'a [u8]>, Reason>)
    ensures
        match raw_name(entry_trees(entries@)) {
            Err(reason) => result == Err::<Option<&'a [u8]>, Reason>(reason),
            Ok(name) => result is Ok && match result->Ok_0 {
                Some(found) => found@ == name,
                None => name.len() == 0,
            },
        },
{
    let utf8 = match optional_bytes(entries, "name.utf-8".as_bytes()) {
        Err(reason) => {
            return Err(reason);
        },
        Ok(utf8) => utf8,
    };
    let plain = match optional_bytes(entries, "name".as_bytes()) {
        Err(reason) => {
            return Err(reason);
        },
        Ok(plain) => plain,
    };
    match utf8 {
        Some(name) => if is_utf8(name) {
            Ok(Some(name))
        } else {
            Ok(plain)
        },
        None => Ok(plain),
    }
}

/// The name as it is shown, and whether that is lossy.
fn show_name(entries: &Vec<Entry>) -> (result: Result<(String, bool), Reason>)
    ensures
        match raw_name(entry_trees(entries@)) {
            Err(reason) => result == Err::<(String, bool), Reason>(reason),
            Ok(name) => {
                &&& result is Ok
                &&& result->Ok_0.0@ == display_text(name)
                &&& result->Ok_0.1 == !vstd::utf8::valid_utf8(name)
            },
        },
{
    match find_name(entries) {
        Err(reason) => Err(reason),
        Ok(Some(name)) => Ok(display(name)),
        Ok(None) => {
            let nothing: Vec<u8> = Vec::new();
            proof {
                assert(raw_name(entry_trees(entries@))->Ok_0 =~= nothing@);
            }
            Ok(display(nothing.as_slice()))
        },
    }
}

/// The piece length.
fn read_piece_length(entries: &Vec<Entry>, hashed_trees: bool) -> (result: Result<u64, Reason>)
    ensures
        match piece_size(entry_trees(entries@), hashed_trees) {
            Ok(n) => result is Ok && result->Ok_0 == n && 0 < n,
            Err(reason) => result == Err::<u64, Reason>(reason),
        },
{
    match length(entries, "piece length".as_bytes()) {
        Err(reason) => Err(reason),
        Ok(n) => if n == 0 || (hashed_trees && (n < 16384 || !is_power_of_two(n))) {
            Err(Reason::PieceLength)
        } else {
            Ok(n)
        },
    }
}

/// The private flag.
fn read_privacy(entries: &Vec<Entry>) -> (result: Result<Option<bool>, Reason>)
    ensures
        result == privacy(entry_trees(entries@)),
{
    match optional_integer(entries, "private".as_bytes()) {
        Err(reason) => Err(reason),
        Ok(None) => Ok(None),
        Ok(Some(n)) => if n == 0 {
            Ok(Some(false))
        } else if n == 1 {
            Ok(Some(true))
        } else {
            Err(Reason::PrivateFlag)
        },
    }
}

/// The files of the tree.
fn read_tree(entries: &Vec<Entry>, budget: &mut usize) -> (result: Result<Vec<TorrentFile>, Reason>)
    ensures
        crate::metainfo::lists::listing_result(
            result,
            *final(budget),
            tree_files(entry_trees(entries@), *old(budget) as int),
        ),
        *final(budget) <= *old(budget),
{
    let root = match required(entries, "file tree".as_bytes()) {
        Err(reason) => {
            return Err(reason);
        },
        Ok(value) => match dictionary(value) {
            Err(reason) => {
                return Err(reason);
            },
            Ok(root) => root,
        },
    };
    let mut files: Vec<TorrentFile> = Vec::new();
    let mut path: Vec<Vec<u8>> = Vec::new();
    proof {
        assert(crate::text::parts_view(path@) =~= seq![]);
        assert(file_models(files@) =~= seq![]);
    }
    match tree(root, &mut path, &mut files, budget) {
        Err(reason) => Err(reason),
        Ok(()) => {
            assert(file_models(files@) =~= tree_listing(
                entry_trees(root@),
                seq![],
                *old(budget) as int,
            )->Ok_0.0);
            if files.len() == 0 {
                Err(Reason::EmptyFileTree)
            } else {
                Ok(files)
            }
        },
    }
}

/// The files that count.
fn read_files(entries: &Vec<Entry>, format: Format, piece_length: u64, budget: usize) -> (result: Result<
    Vec<TorrentFile>,
    Reason,
>)
    requires
        0 < piece_length,
    ensures
        match listed_files(entry_trees(entries@), format, piece_length as int, budget as int) {
            Ok(files) => result is Ok && file_models(result->Ok_0@) == files,
            Err(reason) => result == Err::<Vec<TorrentFile>, Reason>(reason),
        },
{
    let mut left: usize = budget;
    match format {
        Format::V2 => read_tree(entries, &mut left),
        Format::Hybrid => {
            let tree = match read_tree(entries, &mut left) {
                Err(reason) => {
                    return Err(reason);
                },
                Ok(tree) => tree,
            };
            let flat = match v1_files(entries, &mut left) {
                Err(reason) => {
                    return Err(reason);
                },
                Ok(flat) => flat,
            };
            if let Err(reason) = check_v1(entries, &flat, piece_length) {
                return Err(reason);
            }
            if let Err(reason) = check_hybrid(&flat, &tree, piece_length) {
                return Err(reason);
            }
            Ok(flat)
        },
        _ => v1_files(entries, &mut left),
    }
}

/// Whether the shown form of any file is lossy.
fn lossy_files(files: &Vec<TorrentFile>) -> (lossy: bool)
    ensures
        lossy == any_file_lossy(file_models(files@)),
{
    let ghost models = file_models(files@);
    for i in 0..files.len()
        invariant
            models == file_models(files@),
            forall|k: int| 0 <= k < i ==> !(#[trigger] models[k]).encoding_lossy,
    {
        assert(models[i as int] == files@[i as int]@);
        if files[i].encoding_lossy {
            return true;
        }
    }
    false
}

/// The pieces of a dictionary, and whether its paths can stand together.
fn check_files(
    entries: &Vec<Entry>,
    files: &Vec<TorrentFile>,
    format: Format,
    piece_length: u64,
    aligned: u64,
) -> (result: Result<usize, Reason>)
    requires
        0 < piece_length,
        format is V2 ==> aligned == aligned_pieces(file_models(files@), piece_length as int),
    ensures
        ({
            let models = file_models(files@);
            match piece_count(entry_trees(entries@), models, format, piece_length as int) {
                Err(reason) => result == Err::<usize, Reason>(reason),
                Ok(count) => if in_conflict(content_paths(models)) {
                    result == Err::<usize, Reason>(Reason::PathConflict)
                } else if has_dangling_link(models) {
                    result == Err::<usize, Reason>(Reason::DanglingSymlink)
                } else if count > usize::MAX {
                    result == Err::<usize, Reason>(Reason::PieceCountRange)
                } else {
                    result is Ok && result->Ok_0 == count
                },
            }
        }),
{
    let count: u64 = if format == Format::V2 {
        aligned
    } else {
        match check_v1(entries, files, piece_length) {
            Err(reason) => {
                return Err(reason);
            },
            Ok(count) => count,
        }
    };
    let paths = sorted_paths(files);
    if files_conflict(files, &paths) {
        return Err(Reason::PathConflict);
    }
    if any_dangling(files, &paths) {
        return Err(Reason::DanglingSymlink);
    }
    if count > usize::MAX as u64 {
        return Err(Reason::PieceCountRange);
    }
    Ok(count as usize)
}

/// What a dictionary of the given format describes.
fn parse_info(entries: &Vec<Entry>, format: Format, budget: usize) -> (result: Result<
    ParsedInfo,
    Reason,
>)
    ensures
        match describe_info(entry_trees(entries@), format, budget as int) {
            Ok(model) => result is Ok && result->Ok_0@ == model,
            Err(reason) => result == Err::<ParsedInfo, Reason>(reason),
        },
{
    let (name, name_lossy) = match show_name(entries) {
        Err(reason) => {
            return Err(reason);
        },
        Ok(shown) => shown,
    };
    let hashed_trees = format == Format::V2 || format == Format::Hybrid;
    let piece_length: u64 = match read_piece_length(entries, hashed_trees) {
        Err(reason) => {
            return Err(reason);
        },
        Ok(n) => n,
    };
    let private = match read_privacy(entries) {
        Err(reason) => {
            return Err(reason);
        },
        Ok(private) => private,
    };
    let files = match read_files(entries, format, piece_length, budget) {
        Err(reason) => {
            return Err(reason);
        },
        Ok(files) => files,
    };
    let totals = match add_up(&files, piece_length, format == Format::V2) {
        Err(reason) => {
            return Err(reason);
        },
        Ok(totals) => totals,
    };
    let piece_count: usize = match check_files(
        entries,
        &files,
        format,
        piece_length,
        totals.aligned_pieces,
    ) {
        Err(reason) => {
            return Err(reason);
        },
        Ok(count) => count,
    };
    let encoding_lossy = name_lossy || lossy_files(&files);
    Ok(
        ParsedInfo {
            format,
            name,
            total_length: totals.total_length,
            piece_space_length: totals.piece_space_length,
            padding_length: totals.padding_length,
            file_count: totals.file_count,
            piece_length,
            piece_count,
            private,
            files,
            encoding_lossy,
        },
    )
}

/// The format of a dictionary.
fn read_format(entries: &Vec<Entry>) -> (result: Result<Format, Reason>)
    ensures
        result == format_of(entry_trees(entries@)),
{
    match optional_integer(entries, "meta version".as_bytes()) {
        Err(reason) => Err(reason),
        Ok(None) => Ok(Format::V1),
        Ok(Some(n)) => if n != 2 {
            Err(Reason::UnsupportedMetaVersion)
        } else if get(entries, "pieces".as_bytes()).is_some() {
            Ok(Format::Hybrid)
        } else {
            Ok(Format::V2)
        },
    }
}

/// Analyses a document by its tokens.
pub fn analyze_tokens(tokens: &[Token]) -> (analysis: Analysis)
    ensures
        ({
            let (format, outcome) = judge(
                read_document(token_models(tokens@), PARSE_BUDGET as int),
            );
            analysis.reports(format, outcome)
        }),
{
    let root = match document(tokens, PARSE_BUDGET) {
        Err(reason) => {
            return Analysis::report(Format::Unknown, Err(reason));
        },
        Ok(root) => root,
    };
    let entries = match dictionary(&root.value) {
        Err(reason) => {
            return Analysis::report(Format::Unknown, Err(reason));
        },
        Ok(entries) => entries,
    };
    match read_format(entries) {
        Err(reason) => Analysis::report(Format::Unknown, Err(reason)),
        Ok(format) => {
            let outcome = parse_info(entries, format, root.budget);
            Analysis::report(format, outcome)
        },
    }
}

/// Analyses an info dictionary. Its bytes are read as they are, never encoded anew.
pub fn analyze(info: &[u8]) -> (analysis: Analysis)
    ensures
        0 < info@.len() <= MAX_BYTES ==> ({
            let (format, outcome) = judge(
                read_document(decoder_tokens(info@, MAX_DEPTH as nat), PARSE_BUDGET as int),
            );
            analysis.reports(format, outcome)
        }),
        !(0 < info@.len() <= MAX_BYTES) ==> analysis.reports(
            Format::Unknown,
            Err(Reason::MetadataSize),
        ),
{
    if info.len() == 0 || info.len() > MAX_BYTES {
        return Analysis::report(Format::Unknown, Err(Reason::MetadataSize));
    }
    let tokens = read_tokens(info, MAX_DEPTH);
    analyze_tokens(tokens.as_slice())
}

/// The model of a description holds each of its fields.
pub proof fn lemma_info_view(info: ParsedInfo)
    ensures
        info@.format == info.format,
        info@.name == info.name@,
        info@.total_length == info.total_length,
        info@.piece_space_length == info.piece_space_length,
        info@.padding_length == info.padding_length,
        info@.file_count == info.file_count,
        info@.piece_length == info.piece_length,
        info@.piece_count == info.piece_count,
        info@.private == info.private,
        info@.files.len() == info.files@.len(),
        forall|i: int| 0 <= i < info.files@.len() ==> info@.files[i] == (#[trigger] info.files@[i])@,
        info@.encoding_lossy == info.encoding_lossy,
{
}

/// The names of formats and verdicts, and the limits of a document: four mebibytes, sixty-four
/// levels, and a budget of sixty-four mebibytes.
pub proof fn lemma_names_and_limits()
    ensures
        Format::Unknown.text() == "unknown"@,
        Format::V1.text() == "v1"@,
        Format::V2.text() == "v2"@,
        Format::Hybrid.text() == "hybrid"@,
        Status::Valid.text() == "valid"@,
        Status::Invalid.text() == "invalid"@,
        Status::Unsupported.text() == "unsupported"@,
        MAX_BYTES == 4_194_304,
        MAX_DEPTH == 64,
        PARSE_BUDGET == 67_108_864,
{
}

} // verus!
