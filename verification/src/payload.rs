//! The bodies of the load commands that consist of 32-bit and 64-bit
//! fields alone.

use vstd::prelude::*;
use crate::wire::{
    bytes_of_words, holds_at, lemma_holds_split, lemma_subrange_join, lemma_u64_kept,
    lemma_u64_round_trip, lemma_words_kept, lemma_words_len, lemma_words_round_trip, put_u64,
    read_u32, read_u64, u64_at, u64_bytes, words_at, words_bytes, ByteOrder,
};

verus! {

/// A range of the file: where a table lies and how long it is.
#[derive(Clone, Copy, Debug, PartialEq, Eq, Structural)]
pub struct FileRange {
    /// The offset of the range in the file.
    pub file_offset: u32,
    /// The number of bytes in the range.
    pub file_size: u32,
}

impl FileRange {
    /// The fields, in the order of the record.
    pub open spec fn words(self) -> Seq<u32> {
        seq![self.file_offset, self.file_size]
    }

    /// The record whose fields are `ws`.
    pub open spec fn of_words(ws: Seq<u32>) -> FileRange {
        FileRange { file_offset: ws[0], file_size: ws[1] }
    }

    /// Writing the record that is read at a position gives the bytes at
    /// that position.
    pub proof fn lemma_kept(s: Seq<u8>, p: int, order: ByteOrder)
        requires
            0 <= p,
            p + 8 <= s.len(),
        ensures
            words_bytes(
                FileRange::of_words(words_at(s, p, 2, order)).words(),
                order,
            ) == s.subrange(p, p + 8),
    {
        let ws = words_at(s, p, 2, order);
        assert(FileRange::of_words(ws).words() =~= ws);
        lemma_words_kept(s, p, 2, order);
    }

    /// Reads the fields at `pos`.
    pub(crate) fn read(bytes: &[u8], pos: usize, order: ByteOrder) -> (r: FileRange)
        requires
            pos + 8 <= bytes.len(),
        ensures
            r == FileRange::of_words(words_at(bytes@, pos as int, 2, order)),
    {
        FileRange {
            file_offset: read_u32(bytes, pos, order),
            file_size: read_u32(bytes, pos + 4, order),
        }
    }

    /// The bytes of the fields.
    pub(crate) fn to_bytes(&self, order: ByteOrder) -> (out: Vec<u8>)
        ensures
            out@ == words_bytes(self.words(), order),
    {
        let ws: [u32; 2] = [self.file_offset, self.file_size];
        assert(ws@ =~= self.words());
        bytes_of_words(&ws, order)
    }
}

/// Where the encrypted part of a 32-bit image lies.
#[derive(Clone, Copy, Debug, PartialEq, Eq, Structural)]
pub struct EncryptionInfo {
    /// The offset of the encrypted range in the file.
    pub file_offset: u32,
    /// The number of bytes in the encrypted range.
    pub file_size: u32,
    /// Which encryption system is used; zero for none.
    pub crypt_id: u32,
}

impl EncryptionInfo {
    /// The fields, in the order of the record.
    pub open spec fn words(self) -> Seq<u32> {
        seq![self.file_offset, self.file_size, self.crypt_id]
    }

    /// The record whose fields are `ws`.
    pub open spec fn of_words(ws: Seq<u32>) -> EncryptionInfo {
        EncryptionInfo { file_offset: ws[0], file_size: ws[1], crypt_id: ws[2] }
    }

    /// Writing the record that is read at a position gives the bytes at
    /// that position.
    pub proof fn lemma_kept(s: Seq<u8>, p: int, order: ByteOrder)
        requires
            0 <= p,
            p + 12 <= s.len(),
        ensures
            words_bytes(
                EncryptionInfo::of_words(words_at(s, p, 3, order)).words(),
                order,
            ) == s.subrange(p, p + 12),
    {
        let ws = words_at(s, p, 3, order);
        assert(EncryptionInfo::of_words(ws).words() =~= ws);
        lemma_words_kept(s, p, 3, order);
    }

    /// Reads the fields at `pos`.
    pub(crate) fn read(bytes: &[u8], pos: usize, order: ByteOrder) -> (r: EncryptionInfo)
        requires
            pos + 12 <= bytes.len(),
        ensures
            r == EncryptionInfo::of_words(words_at(bytes@, pos as int, 3, order)),
    {
        EncryptionInfo {
            file_offset: read_u32(bytes, pos, order),
            file_size: read_u32(bytes, pos + 4, order),
            crypt_id: read_u32(bytes, pos + 8, order),
        }
    }

    /// The bytes of the fields.
    pub(crate) fn to_bytes(&self, order: ByteOrder) -> (out: Vec<u8>)
        ensures
            out@ == words_bytes(self.words(), order),
    {
        let ws: [u32; 3] = [self.file_offset, self.file_size, self.crypt_id];
        assert(ws@ =~= self.words());
        bytes_of_words(&ws, order)
    }
}

/// Where the encrypted part of a 64-bit image lies.
#[derive(Clone, Copy, Debug, PartialEq, Eq, Structural)]
pub struct EncryptionInfo64 {
    /// The offset of the encrypted range in the file.
    pub file_offset: u32,
    /// The number of bytes in the encrypted range.
    pub file_size: u32,
    /// Which encryption system is used; zero for none.
    pub crypt_id: u32,
    /// Padding to a multiple of eight bytes.
    pub padding: u32,
}

impl EncryptionInfo64 {
    /// The fields, in the order of the record.
    pub open spec fn words(self) -> Seq<u32> {
        seq![self.file_offset, self.file_size, self.crypt_id, self.padding]
    }

    /// The record whose fields are `ws`.
    pub open spec fn of_words(ws: Seq<u32>) -> EncryptionInfo64 {
        EncryptionInfo64 { file_offset: ws[0], file_size: ws[1], crypt_id: ws[2], padding: ws[3] }
    }

    /// Writing the record that is read at a position gives the bytes at
    /// that position.
    pub proof fn lemma_kept(s: Seq<u8>, p: int, order: ByteOrder)
        requires
            0 <= p,
            p + 16 <= s.len(),
        ensures
            words_bytes(
                EncryptionInfo64::of_words(words_at(s, p, 4, order)).words(),
                order,
            ) == s.subrange(p, p + 16),
    {
        let ws = words_at(s, p, 4, order);
        assert(EncryptionInfo64::of_words(ws).words() =~= ws);
        lemma_words_kept(s, p, 4, order);
    }

    /// Reads the fields at `pos`.
    pub(crate) fn read(bytes: &[u8], pos: usize, order: ByteOrder) -> (r: EncryptionInfo64)
        requires
            pos + 16 <= bytes.len(),
        ensures
            r == EncryptionInfo64::of_words(words_at(bytes@, pos as int, 4, order)),
    {
        EncryptionInfo64 {
            file_offset: read_u32(bytes, pos, order),
            file_size: read_u32(bytes, pos + 4, order),
            crypt_id: read_u32(bytes, pos + 8, order),
            padding: read_u32(bytes, pos + 12, order),
        }
    }

    /// The bytes of the fields.
    pub(crate) fn to_bytes(&self, order: ByteOrder) -> (out: Vec<u8>)
        ensures
            out@ == words_bytes(self.words(), order),
    {
        let ws: [u32; 4] = [self.file_offset, self.file_size, self.crypt_id, self.padding];
        assert(ws@ =~= self.words());
        bytes_of_words(&ws, order)
    }
}

/// Where the tables of the dynamic loader lie.
#[derive(Clone, Copy, Debug, PartialEq, Eq, Structural)]
pub struct DyldInfo {
    pub rebase_info_offset: u32,
    pub rebase_info_size: u32,
    pub bind_info_offset: u32,
    pub bind_info_size: u32,
    pub weak_binding_info_offset: u32,
    pub weak_binding_info_size: u32,
    pub lazy_binding_info_offset: u32,
    pub lazy_binding_info_size: u32,
    pub export_info_offset: u32,
    pub export_info_size: u32,
}

impl DyldInfo {
    /// The fields, in the order of the record.
    pub open spec fn words(self) -> Seq<u32> {
        seq![
            self.rebase_info_offset,
            self.rebase_info_size,
            self.bind_info_offset,
            self.bind_info_size,
            self.weak_binding_info_offset,
            self.weak_binding_info_size,
            self.lazy_binding_info_offset,
            self.lazy_binding_info_size,
            self.export_info_offset,
            self.export_info_size,
        ]
    }

    /// The record whose fields are `ws`.
    pub open spec fn of_words(ws: Seq<u32>) -> DyldInfo {
        DyldInfo {
            rebase_info_offset: ws[0],
            rebase_info_size: ws[1],
            bind_info_offset: ws[2],
            bind_info_size: ws[3],
            weak_binding_info_offset: ws[4],
            weak_binding_info_size: ws[5],
            lazy_binding_info_offset: ws[6],
            lazy_binding_info_size: ws[7],
            export_info_offset: ws[8],
            export_info_size: ws[9],
        }
    }

    /// Writing the record that is read at a position gives the bytes at
    /// that position.
    pub proof fn lemma_kept(s: Seq<u8>, p: int, order: ByteOrder)
        requires
            0 <= p,
            p + 40 <= s.len(),
        ensures
            words_bytes(
                DyldInfo::of_words(words_at(s, p, 10, order)).words(),
                order,
            ) == s.subrange(p, p + 40),
    {
        let ws = words_at(s, p, 10, order);
        assert(DyldInfo::of_words(ws).words() =~= ws);
        lemma_words_kept(s, p, 10, order);
    }

    /// Reads the fields at `pos`.
    pub(crate) fn read(bytes: &[u8], pos: usize, order: ByteOrder) -> (r: DyldInfo)
        requires
            pos + 40 <= bytes.len(),
        ensures
            r == DyldInfo::of_words(words_at(bytes@, pos as int, 10, order)),
    {
        DyldInfo {
            rebase_info_offset: read_u32(bytes, pos, order),
            rebase_info_size: read_u32(bytes, pos + 4, order),
            bind_info_offset: read_u32(bytes, pos + 8, order),
            bind_info_size: read_u32(bytes, pos + 12, order),
            weak_binding_info_offset: read_u32(bytes, pos + 16, order),
            weak_binding_info_size: read_u32(bytes, pos + 20, order),
            lazy_binding_info_offset: read_u32(bytes, pos + 24, order),
            lazy_binding_info_size: read_u32(bytes, pos + 28, order),
            export_info_offset: read_u32(bytes, pos + 32, order),
            export_info_size: read_u32(bytes, pos + 36, order),
        }
    }

    /// The bytes of the fields.
    pub(crate) fn to_bytes(&self, order: ByteOrder) -> (out: Vec<u8>)
        ensures
            out@ == words_bytes(self.words(), order),
    {
        let ws: [u32; 10] = [
            self.rebase_info_offset,
            self.rebase_info_size,
            self.bind_info_offset,
            self.bind_info_size,
            self.weak_binding_info_offset,
            self.weak_binding_info_size,
            self.lazy_binding_info_offset,
            self.lazy_binding_info_size,
            self.export_info_offset,
            self.export_info_size,
        ];
        assert(ws@ =~= self.words());
        bytes_of_words(&ws, order)
    }
}

/// Where the symbol table and its strings lie.
#[derive(Clone, Copy, Debug, PartialEq, Eq, Structural)]
pub struct SymbolTable {
    pub symbol_table_offset: u32,
    pub number_of_symbols: u32,
    pub string_table_offset: u32,
    pub string_table_size: u32,
}

impl SymbolTable {
    /// The fields, in the order of the record.
    pub open spec fn words(self) -> Seq<u32> {
        seq![
            self.symbol_table_offset,
            self.number_of_symbols,
            self.string_table_offset,
            self.string_table_size,
        ]
    }

    /// The record whose fields are `ws`.
    pub open spec fn of_words(ws: Seq<u32>) -> SymbolTable {
        SymbolTable {
            symbol_table_offset: ws[0],
            number_of_symbols: ws[1],
            string_table_offset: ws[2],
            string_table_size: ws[3],
        }
    }

    /// Writing the record that is read at a position gives the bytes at
    /// that position.
    pub proof fn lemma_kept(s: Seq<u8>, p: int, order: ByteOrder)
        requires
            0 <= p,
            p + 16 <= s.len(),
        ensures
            words_bytes(
                SymbolTable::of_words(words_at(s, p, 4, order)).words(),
                order,
            ) == s.subrange(p, p + 16),
    {
        let ws = words_at(s, p, 4, order);
        assert(SymbolTable::of_words(ws).words() =~= ws);
        lemma_words_kept(s, p, 4, order);
    }

    /// Reads the fields at `pos`.
    pub(crate) fn read(bytes: &[u8], pos: usize, order: ByteOrder) -> (r: SymbolTable)
        requires
            pos + 16 <= bytes.len(),
        ensures
            r == SymbolTable::of_words(words_at(bytes@, pos as int, 4, order)),
    {
        SymbolTable {
            symbol_table_offset: read_u32(bytes, pos, order),
            number_of_symbols: read_u32(bytes, pos + 4, order),
            string_table_offset: read_u32(bytes, pos + 8, order),
            string_table_size: read_u32(bytes, pos + 12, order),
        }
    }

    /// The bytes of the fields.
    pub(crate) fn to_bytes(&self, order: ByteOrder) -> (out: Vec<u8>)
        ensures
            out@ == words_bytes(self.words(), order),
    {
        let ws: [u32; 4] = [
            self.symbol_table_offset,
            self.number_of_symbols,
            self.string_table_offset,
            self.string_table_size,
        ];
        assert(ws@ =~= self.words());
        bytes_of_words(&ws, order)
    }
}

/// The oldest system version that an image runs on.
#[derive(Clone, Copy, Debug, PartialEq, Eq, Structural)]
pub struct MinimumOsVersion {
    /// The version, packed as `x.y.z` in sixteen, eight and eight bits.
    pub version: u32,
    /// Reserved (the version of the development kit in later layouts).
    pub reserved: u32,
}

impl MinimumOsVersion {
    /// The fields, in the order of the record.
    pub open spec fn words(self) -> Seq<u32> {
        seq![self.version, self.reserved]
    }

    /// The record whose fields are `ws`.
    pub open spec fn of_words(ws: Seq<u32>) -> MinimumOsVersion {
        MinimumOsVersion { version: ws[0], reserved: ws[1] }
    }

    /// Writing the record that is read at a position gives the bytes at
    /// that position.
    pub proof fn lemma_kept(s: Seq<u8>, p: int, order: ByteOrder)
        requires
            0 <= p,
            p + 8 <= s.len(),
        ensures
            words_bytes(
                MinimumOsVersion::of_words(words_at(s, p, 2, order)).words(),
                order,
            ) == s.subrange(p, p + 8),
    {
        let ws = words_at(s, p, 2, order);
        assert(MinimumOsVersion::of_words(ws).words() =~= ws);
        lemma_words_kept(s, p, 2, order);
    }

    /// Reads the fields at `pos`.
    pub(crate) fn read(bytes: &[u8], pos: usize, order: ByteOrder) -> (r: MinimumOsVersion)
        requires
            pos + 8 <= bytes.len(),
        ensures
            r == MinimumOsVersion::of_words(words_at(bytes@, pos as int, 2, order)),
    {
        MinimumOsVersion {
            version: read_u32(bytes, pos, order),
            reserved: read_u32(bytes, pos + 4, order),
        }
    }

    /// The bytes of the fields.
    pub(crate) fn to_bytes(&self, order: ByteOrder) -> (out: Vec<u8>)
        ensures
            out@ == words_bytes(self.words(), order),
    {
        let ws: [u32; 2] = [self.version, self.reserved];
        assert(ws@ =~= self.words());
        bytes_of_words(&ws, order)
    }
}

/// The layout of the symbol table for the dynamic linker.
#[derive(Clone, Copy, Debug, PartialEq, Eq, Structural)]
pub struct DynamicSymbolTable {
    pub loc_symbol_index: u32,
    pub loc_symbol_number: u32,
    pub defined_ext_symbol_index: u32,
    pub defined_ext_symbol_number: u32,
    pub undef_ext_symbol_index: u32,
    pub undef_ext_symbol_number: u32,
    pub toc_offset: u32,
    pub toc_entries: u32,
    pub module_table_offset: u32,
    pub module_table_entries: u32,
    pub ext_ref_table_offset: u32,
    pub ext_ref_table_entries: u32,
    pub ind_sym_table_offset: u32,
    pub ind_sym_table_entries: u32,
    pub ext_reloc_table_offset: u32,
    pub ext_reloc_table_entries: u32,
    pub loc_reloc_table_offset: u32,
    pub loc_reloc_table_entries: u32,
}

impl DynamicSymbolTable {
    /// The fields, in the order of the record.
    pub open spec fn words(self) -> Seq<u32> {
        seq![
            self.loc_symbol_index,
            self.loc_symbol_number,
            self.defined_ext_symbol_index,
            self.defined_ext_symbol_number,
            self.undef_ext_symbol_index,
            self.undef_ext_symbol_number,
            self.toc_offset,
            self.toc_entries,
            self.module_table_offset,
            self.module_table_entries,
            self.ext_ref_table_offset,
            self.ext_ref_table_entries,
            self.ind_sym_table_offset,
            self.ind_sym_table_entries,
            self.ext_reloc_table_offset,
            self.ext_reloc_table_entries,
            self.loc_reloc_table_offset,
            self.loc_reloc_table_entries,
        ]
    }

    /// The record whose fields are `ws`.
    pub open spec fn of_words(ws: Seq<u32>) -> DynamicSymbolTable {
        DynamicSymbolTable {
            loc_symbol_index: ws[0],
            loc_symbol_number: ws[1],
            defined_ext_symbol_index: ws[2],
            defined_ext_symbol_number: ws[3],
            undef_ext_symbol_index: ws[4],
            undef_ext_symbol_number: ws[5],
            toc_offset: ws[6],
            toc_entries: ws[7],
            module_table_offset: ws[8],
            module_table_entries: ws[9],
            ext_ref_table_offset: ws[10],
            ext_ref_table_entries: ws[11],
            ind_sym_table_offset: ws[12],
            ind_sym_table_entries: ws[13],
            ext_reloc_table_offset: ws[14],
            ext_reloc_table_entries: ws[15],
            loc_reloc_table_offset: ws[16],
            loc_reloc_table_entries: ws[17],
        }
    }

    /// Writing the record that is read at a position gives the bytes at
    /// that position.
    pub proof fn lemma_kept(s: Seq<u8>, p: int, order: ByteOrder)
        requires
            0 <= p,
            p + 72 <= s.len(),
        ensures
            words_bytes(
                DynamicSymbolTable::of_words(words_at(s, p, 18, order)).words(),
                order,
            ) == s.subrange(p, p + 72),
    {
        let ws = words_at(s, p, 18, order);
        assert(DynamicSymbolTable::of_words(ws).words() =~= ws);
        lemma_words_kept(s, p, 18, order);
    }

    /// Reads the fields at `pos`.
    pub(crate) fn read(bytes: &[u8], pos: usize, order: ByteOrder) -> (r: DynamicSymbolTable)
        requires
            pos + 72 <= bytes.len(),
        ensures
            r == DynamicSymbolTable::of_words(words_at(bytes@, pos as int, 18, order)),
    {
        DynamicSymbolTable {
            loc_symbol_index: read_u32(bytes, pos, order),
            loc_symbol_number: read_u32(bytes, pos + 4, order),
            defined_ext_symbol_index: read_u32(bytes, pos + 8, order),
            defined_ext_symbol_number: read_u32(bytes, pos + 12, order),
            undef_ext_symbol_index: read_u32(bytes, pos + 16, order),
            undef_ext_symbol_number: read_u32(bytes, pos + 20, order),
            toc_offset: read_u32(bytes, pos + 24, order),
            toc_entries: read_u32(bytes, pos + 28, order),
            module_table_offset: read_u32(bytes, pos + 32, order),
            module_table_entries: read_u32(bytes, pos + 36, order),
            ext_ref_table_offset: read_u32(bytes, pos + 40, order),
            ext_ref_table_entries: read_u32(bytes, pos + 44, order),
            ind_sym_table_offset: read_u32(bytes, pos + 48, order),
            ind_sym_table_entries: read_u32(bytes, pos + 52, order),
            ext_reloc_table_offset: read_u32(bytes, pos + 56, order),
            ext_reloc_table_entries: read_u32(bytes, pos + 60, order),
            loc_reloc_table_offset: read_u32(bytes, pos + 64, order),
            loc_reloc_table_entries: read_u32(bytes, pos + 68, order),
        }
    }

    /// The bytes of the fields.
    pub(crate) fn to_bytes(&self, order: ByteOrder) -> (out: Vec<u8>)
        ensures
            out@ == words_bytes(self.words(), order),
    {
        let ws: [u32; 18] = [
            self.loc_symbol_index,
            self.loc_symbol_number,
            self.defined_ext_symbol_index,
            self.defined_ext_symbol_number,
            self.undef_ext_symbol_index,
            self.undef_ext_symbol_number,
            self.toc_offset,
            self.toc_entries,
            self.module_table_offset,
            self.module_table_entries,
            self.ext_ref_table_offset,
            self.ext_ref_table_entries,
            self.ind_sym_table_offset,
            self.ind_sym_table_entries,
            self.ext_reloc_table_offset,
            self.ext_reloc_table_entries,
            self.loc_reloc_table_offset,
            self.loc_reloc_table_entries,
        ];
        assert(ws@ =~= self.words());
        bytes_of_words(&ws, order)
    }
}

/// Where execution of the main program starts.
#[derive(Clone, Copy, Debug, PartialEq, Eq, Structural)]
pub struct EntryPoint {
    /// The offset of the entry point in the file.
    pub entry_offset: u64,
    /// The initial size of the stack, or zero.
    pub stacks_size: u64,
}

impl EntryPoint {
    /// The bytes of the two fields.
    pub open spec fn bytes(self, order: ByteOrder) -> Seq<u8> {
        u64_bytes(self.entry_offset, order) + u64_bytes(self.stacks_size, order)
    }

    /// The record at position `p` of `s`.
    pub open spec fn at(s: Seq<u8>, p: int, order: ByteOrder) -> EntryPoint {
        EntryPoint { entry_offset: u64_at(s, p, order), stacks_size: u64_at(s, p + 8, order) }
    }

    /// The record is read back from its bytes.
    pub proof fn lemma_round_trip(self, s: Seq<u8>, p: int, order: ByteOrder)
        requires
            holds_at(s, p, self.bytes(order)),
        ensures
            EntryPoint::at(s, p, order) == self,
    {
        lemma_holds_split(
            s,
            p,
            u64_bytes(self.entry_offset, order),
            u64_bytes(self.stacks_size, order),
        );
        lemma_u64_round_trip(s, p, self.entry_offset, order);
        lemma_u64_round_trip(s, p + 8, self.stacks_size, order);
    }

    /// Writing the record that is read at a position gives the bytes at
    /// that position.
    pub proof fn lemma_kept(s: Seq<u8>, p: int, order: ByteOrder)
        requires
            0 <= p,
            p + 16 <= s.len(),
        ensures
            EntryPoint::at(s, p, order).bytes(order) == s.subrange(p, p + 16),
    {
        lemma_u64_kept(s, p, order);
        lemma_u64_kept(s, p + 8, order);
        lemma_subrange_join(s, p, p + 8, p + 16);
    }

    /// Reads the fields at `pos`.
    pub(crate) fn read(bytes: &[u8], pos: usize, order: ByteOrder) -> (r: EntryPoint)
        requires
            pos + 16 <= bytes.len(),
        ensures
            r == EntryPoint::at(bytes@, pos as int, order),
    {
        EntryPoint {
            entry_offset: read_u64(bytes, pos, order),
            stacks_size: read_u64(bytes, pos + 8, order),
        }
    }

    /// The bytes of the fields.
    pub(crate) fn to_bytes(&self, order: ByteOrder) -> (out: Vec<u8>)
        ensures
            out@ == self.bytes(order),
    {
        let mut out: Vec<u8> = Vec::new();
        put_u64(&mut out, self.entry_offset, order);
        put_u64(&mut out, self.stacks_size, order);
        assert(out@ =~= self.bytes(order));
        out
    }
}

/// A tool that took part in building an image, and its version.
#[derive(Clone, Copy, Debug, PartialEq, Eq, Structural)]
pub struct BuildToolVersion {
    /// Which tool.
    pub tool: u32,
    /// The version of the tool.
    pub version: u32,
}

/// The bytes of a list of tool entries.
pub open spec fn tools_bytes(tools: Seq<BuildToolVersion>, order: ByteOrder) -> Seq<u8>
    decreases tools.len(),
{
    if tools.len() == 0 {
        Seq::empty()
    } else {
        tools_bytes(tools.drop_last(), order) + words_bytes(
            seq![tools.last().tool, tools.last().version],
            order,
        )
    }
}

/// The `n` tool entries that start at position `p` of `s`.
pub open spec fn tools_at(s: Seq<u8>, p: int, n: nat, order: ByteOrder) -> Seq<BuildToolVersion> {
    Seq::new(
        n,
        |i: int|
            BuildToolVersion {
                tool: words_at(s, p + 8 * i, 2, order)[0],
                version: words_at(s, p + 8 * i, 2, order)[1],
            },
    )
}

/// A list of `n` tool entries takes `8 * n` bytes.
pub proof fn lemma_tools_len(tools: Seq<BuildToolVersion>, order: ByteOrder)
    ensures
        tools_bytes(tools, order).len() == 8 * tools.len(),
    decreases tools.len(),
{
    if tools.len() > 0 {
        lemma_tools_len(tools.drop_last(), order);
        lemma_words_len(seq![tools.last().tool, tools.last().version], order);
    }
}

/// A list of tool entries is read back from its bytes.
pub proof fn lemma_tools_round_trip(
    tools: Seq<BuildToolVersion>,
    s: Seq<u8>,
    p: int,
    order: ByteOrder,
)
    requires
        holds_at(s, p, tools_bytes(tools, order)),
    ensures
        tools_at(s, p, tools.len(), order) == tools,
    decreases tools.len(),
{
    if tools.len() > 0 {
        let front = tools.drop_last();
        let last = seq![tools.last().tool, tools.last().version];
        lemma_tools_len(front, order);
        lemma_holds_split(s, p, tools_bytes(front, order), words_bytes(last, order));
        lemma_tools_round_trip(front, s, p, order);
        lemma_words_round_trip(s, p + 8 * front.len(), last, order);
        assert forall|i: int| 0 <= i < tools.len() implies tools_at(s, p, tools.len(), order)[i]
            == tools[i] by {
            if i < front.len() {
                assert(tools_at(s, p, front.len(), order)[i] == front[i]);
            } else {
                assert(words_at(s, p + 8 * i, 2, order) == last);
            }
        }
    }
    assert(tools_at(s, p, tools.len(), order) =~= tools);
}

/// Writing the tool entries that are read at a position gives the bytes
/// at that position.
pub proof fn lemma_tools_kept(s: Seq<u8>, p: int, n: nat, order: ByteOrder)
    requires
        0 <= p,
        p + 8 * n <= s.len(),
    ensures
        tools_bytes(tools_at(s, p, n, order), order) == s.subrange(p, p + 8 * n),
    decreases n,
{
    let tools = tools_at(s, p, n, order);
    if n == 0 {
        assert(tools_bytes(tools, order) =~= s.subrange(p, p));
    } else {
        let q = p + 8 * (n - 1);
        assert(tools.drop_last() =~= tools_at(s, p, (n - 1) as nat, order));
        lemma_tools_kept(s, p, (n - 1) as nat, order);
        lemma_words_kept(s, q, 2, order);
        assert(seq![tools.last().tool, tools.last().version] =~= words_at(s, q, 2, order));
        lemma_subrange_join(s, p, q, p + 8 * n);
    }
}

} // verus!
