//! Why a metadata dictionary is refused.

use vstd::prelude::*;

verus! {

/// The first rule that a metadata dictionary breaks.
#[derive(Clone, Copy, Debug, PartialEq, Eq, Structural)]
pub enum Reason {
    MetadataSize,
    SemanticCapacity,
    IntegerRange,
    InvalidBencode,
    DuplicateKey,
    MissingDictionary,
    TrailingData,
    DictionaryType,
    BytesType,
    IntegerType,
    MissingField,
    NegativeLength,
    PathType,
    EmptyPath,
    InvalidPath,
    UnsupportedMetaVersion,
    PieceLength,
    PrivateFlag,
    EmptyFileTree,
    HybridLayout,
    LengthOverflow,
    PathConflict,
    DanglingSymlink,
    PieceCountRange,
    FileAttributes,
    SymlinkLength,
    FileSha1Length,
    MissingPath,
    FileLayout,
    PieceCount,
    FileTreeConflict,
    V2PaddingFile,
    PiecesRoot,
}

impl Reason {
    /// The stable label that is stored for a reason.
    pub open spec fn text(self) -> Seq<char> {
        match self {
            Reason::MetadataSize => "metadata_size"@,
            Reason::SemanticCapacity => "semantic_capacity"@,
            Reason::IntegerRange => "integer_range"@,
            Reason::InvalidBencode => "invalid_bencode"@,
            Reason::DuplicateKey => "duplicate_key"@,
            Reason::MissingDictionary => "missing_dictionary"@,
            Reason::TrailingData => "trailing_data"@,
            Reason::DictionaryType => "dictionary_type"@,
            Reason::BytesType => "bytes_type"@,
            Reason::IntegerType => "integer_type"@,
            Reason::MissingField => "missing_field"@,
            Reason::NegativeLength => "negative_length"@,
            Reason::PathType => "path_type"@,
            Reason::EmptyPath => "empty_path"@,
            Reason::InvalidPath => "invalid_path"@,
            Reason::UnsupportedMetaVersion => "unsupported_meta_version"@,
            Reason::PieceLength => "piece_length"@,
            Reason::PrivateFlag => "private_flag"@,
            Reason::EmptyFileTree => "empty_file_tree"@,
            Reason::HybridLayout => "hybrid_layout"@,
            Reason::LengthOverflow => "length_overflow"@,
            Reason::PathConflict => "path_conflict"@,
            Reason::DanglingSymlink => "dangling_symlink"@,
            Reason::PieceCountRange => "piece_count_range"@,
            Reason::FileAttributes => "file_attributes"@,
            Reason::SymlinkLength => "symlink_length"@,
            Reason::FileSha1Length => "file_sha1_length"@,
            Reason::MissingPath => "missing_path"@,
            Reason::FileLayout => "file_layout"@,
            Reason::PieceCount => "piece_count"@,
            Reason::FileTreeConflict => "file_tree_conflict"@,
            Reason::V2PaddingFile => "v2_padding_file"@,
            Reason::PiecesRoot => "pieces_root"@,
        }
    }

    /// The stable label of the reason.
    pub fn label(self) -> (label: &'static str)
        ensures
            label@ == self.text(),
    {
        match self {
            Reason::MetadataSize => "metadata_size",
            Reason::SemanticCapacity => "semantic_capacity",
            Reason::IntegerRange => "integer_range",
            Reason::InvalidBencode => "invalid_bencode",
            Reason::DuplicateKey => "duplicate_key",
            Reason::MissingDictionary => "missing_dictionary",
            Reason::TrailingData => "trailing_data",
            Reason::DictionaryType => "dictionary_type",
            Reason::BytesType => "bytes_type",
            Reason::IntegerType => "integer_type",
            Reason::MissingField => "missing_field",
            Reason::NegativeLength => "negative_length",
            Reason::PathType => "path_type",
            Reason::EmptyPath => "empty_path",
            Reason::InvalidPath => "invalid_path",
            Reason::UnsupportedMetaVersion => "unsupported_meta_version",
            Reason::PieceLength => "piece_length",
            Reason::PrivateFlag => "private_flag",
            Reason::EmptyFileTree => "empty_file_tree",
            Reason::HybridLayout => "hybrid_layout",
            Reason::LengthOverflow => "length_overflow",
            Reason::PathConflict => "path_conflict",
            Reason::DanglingSymlink => "dangling_symlink",
            Reason::PieceCountRange => "piece_count_range",
            Reason::FileAttributes => "file_attributes",
            Reason::SymlinkLength => "symlink_length",
            Reason::FileSha1Length => "file_sha1_length",
            Reason::MissingPath => "missing_path",
            Reason::FileLayout => "file_layout",
            Reason::PieceCount => "piece_count",
            Reason::FileTreeConflict => "file_tree_conflict",
            Reason::V2PaddingFile => "v2_padding_file",
            Reason::PiecesRoot => "pieces_root",
        }
    }
}

/// The names under which reasons are stored.
pub proof fn lemma_reason_names()
    ensures
        Reason::MetadataSize.text() == "metadata_size"@,
        Reason::SemanticCapacity.text() == "semantic_capacity"@,
        Reason::IntegerRange.text() == "integer_range"@,
        Reason::InvalidBencode.text() == "invalid_bencode"@,
        Reason::DuplicateKey.text() == "duplicate_key"@,
        Reason::MissingDictionary.text() == "missing_dictionary"@,
        Reason::TrailingData.text() == "trailing_data"@,
        Reason::DictionaryType.text() == "dictionary_type"@,
        Reason::BytesType.text() == "bytes_type"@,
        Reason::IntegerType.text() == "integer_type"@,
        Reason::MissingField.text() == "missing_field"@,
        Reason::NegativeLength.text() == "negative_length"@,
        Reason::PathType.text() == "path_type"@,
        Reason::EmptyPath.text() == "empty_path"@,
        Reason::InvalidPath.text() == "invalid_path"@,
        Reason::UnsupportedMetaVersion.text() == "unsupported_meta_version"@,
        Reason::PieceLength.text() == "piece_length"@,
        Reason::PrivateFlag.text() == "private_flag"@,
        Reason::EmptyFileTree.text() == "empty_file_tree"@,
        Reason::HybridLayout.text() == "hybrid_layout"@,
        Reason::LengthOverflow.text() == "length_overflow"@,
        Reason::PathConflict.text() == "path_conflict"@,
        Reason::DanglingSymlink.text() == "dangling_symlink"@,
        Reason::PieceCountRange.text() == "piece_count_range"@,
        Reason::FileAttributes.text() == "file_attributes"@,
        Reason::SymlinkLength.text() == "symlink_length"@,
        Reason::FileSha1Length.text() == "file_sha1_length"@,
        Reason::MissingPath.text() == "missing_path"@,
        Reason::FileLayout.text() == "file_layout"@,
        Reason::PieceCount.text() == "piece_count"@,
        Reason::FileTreeConflict.text() == "file_tree_conflict"@,
        Reason::V2PaddingFile.text() == "v2_padding_file"@,
        Reason::PiecesRoot.text() == "pieces_root"@,
{
}

} // verus!
