//! The scan of a 64-bit little-endian ELF image for the run-time addresses of
//! named symbols.
//!
//! The records of the image (file header, section headers, symbols) are decoded
//! by the `goblin` crate; which records are read, what is made of them and what
//! counts as a broken image is decided here.

use vstd::prelude::*;
use vstd::bytes::{spec_u16_from_le_bytes, spec_u32_from_le_bytes, spec_u64_from_le_bytes};
use vstd::string::StringSliceAdditionalSpecFns;

verus! {

/// The size of the file header of a 64-bit image.
pub const SIZEOF_EHDR: usize = 64;

/// The size of one section header of a 64-bit image.
pub const SIZEOF_SHDR: usize = 64;

/// The size of one symbol of a 64-bit image.
pub const SIZEOF_SYM: usize = 24;

/// The index of the class byte in the image's identification.
pub const EI_CLASS: usize = 4;

/// The class of 64-bit images.
pub const ELFCLASS64: u8 = 2;

/// The index of the data encoding byte in the image's identification.
pub const EI_DATA: usize = 5;

/// The data encoding "two's complement, little endian".
pub const ELFDATA2LSB: u8 = 1;

/// The data encoding "two's complement, big endian".
pub const ELFDATA2MSB: u8 = 2;

/// The section type of a symbol table.
pub const SHT_SYMTAB: u32 = 2;

/// Why an image could not be scanned.
#[derive(Clone, Copy, Debug, PartialEq, Eq, Structural)]
pub enum ElfError {
    /// A record that the scan has to read lies partly outside the image.
    Truncated,
    /// The image is not a 64-bit little-endian one, or its section headers
    /// have another size than `SIZEOF_SHDR`.
    Unsupported,
    /// The program headers' file offset is beyond their address in memory, a
    /// symbol table names a string table that is not there, or a symbol's
    /// name starts beyond the end of the string table.
    Malformed,
}

/// What the scan reads of the file header.
#[derive(Clone, Copy, Debug, PartialEq, Eq, Structural)]
pub struct ElfHeader {
    pub e_phoff: u64,
    pub e_shoff: u64,
    pub e_shentsize: u16,
    pub e_shnum: u16,
}

/// What the scan reads of a section header.
#[derive(Clone, Copy, Debug, PartialEq, Eq, Structural)]
pub struct SectionHeader {
    pub sh_type: u32,
    pub sh_offset: u64,
    pub sh_size: u64,
    pub sh_link: u32,
}

/// What the scan reads of a symbol.
#[derive(Clone, Copy, Debug, PartialEq, Eq, Structural)]
pub struct Sym {
    pub st_name: usize,
    pub st_value: u64,
}

/// The little-endian 16-bit number at `at`.
pub open spec fn le_u16(image: Seq<u8>, at: int) -> u16 {
    spec_u16_from_le_bytes(image.subrange(at, at + 2))
}

/// The little-endian 32-bit number at `at`.
pub open spec fn le_u32(image: Seq<u8>, at: int) -> u32 {
    spec_u32_from_le_bytes(image.subrange(at, at + 4))
}

/// The little-endian 64-bit number at `at`.
pub open spec fn le_u64(image: Seq<u8>, at: int) -> u64 {
    spec_u64_from_le_bytes(image.subrange(at, at + 8))
}

/// The file header of a little-endian 64-bit image.
pub open spec fn header_of(image: Seq<u8>) -> ElfHeader {
    ElfHeader {
        e_phoff: le_u64(image, 32),
        e_shoff: le_u64(image, 40),
        e_shentsize: le_u16(image, 58),
        e_shnum: le_u16(image, 60),
    }
}

/// The section header that starts at `at`.
pub open spec fn section_header_at(image: Seq<u8>, at: int) -> SectionHeader {
    SectionHeader {
        sh_type: le_u32(image, at + 4),
        sh_offset: le_u64(image, at + 24),
        sh_size: le_u64(image, at + 32),
        sh_link: le_u32(image, at + 40),
    }
}

/// The symbol that starts at `at`.
pub open spec fn symbol_at(image: Seq<u8>, at: int) -> Sym {
    Sym { st_name: le_u32(image, at) as usize, st_value: le_u64(image, at + 8) }
}

/// Where the section header of index `i` starts.
pub open spec fn section_offset(header: ElfHeader, i: int) -> int {
    header.e_shoff + i * SIZEOF_SHDR
}

/// The index of the first symbol table among the sections from `i` on, if
/// every section header up to it lies inside the image.
pub open spec fn find_symtab(image: Seq<u8>, header: ElfHeader, i: int) -> Result<
    Option<int>,
    ElfError,
>
    decreases header.e_shnum - i,
{
    if i < 0 || i >= header.e_shnum {
        Ok(None)
    } else if section_offset(header, i) + SIZEOF_SHDR > image.len() {
        Err(ElfError::Truncated)
    } else if section_header_at(image, section_offset(header, i)).sh_type == SHT_SYMTAB {
        Ok(Some(i))
    } else {
        find_symtab(image, header, i + 1)
    }
}

/// The number of bytes from `at` to the next zero byte of `strings`, or to its end.
pub open spec fn name_len(strings: Seq<u8>, at: int) -> nat
    decreases strings.len() - at,
{
    if 0 <= at < strings.len() && strings[at] != 0 {
        1 + name_len(strings, at + 1)
    } else {
        0
    }
}

/// The name that starts at `at` in a string table.
pub open spec fn symbol_name(strings: Seq<u8>, at: int) -> Seq<u8> {
    strings.subrange(at, at + name_len(strings, at))
}

/// The index of the first of `names`, from `k` on, that is `name`.
pub open spec fn first_match(names: Seq<Seq<u8>>, name: Seq<u8>, k: int) -> Option<int>
    decreases names.len() - k,
{
    if k < 0 || k >= names.len() {
        None
    } else if names[k] == name {
        Some(k)
    } else {
        first_match(names, name, k + 1)
    }
}

/// The addresses after a symbol called `name` has been seen at `address`: the
/// first of `names` that is `name` gets the address, if the address fits.
pub open spec fn record_symbol(
    addresses: Seq<usize>,
    names: Seq<Seq<u8>>,
    name: Seq<u8>,
    address: int,
) -> Seq<usize> {
    match first_match(names, name, 0) {
        Some(k) => if address <= usize::MAX {
            addresses.update(k, address as usize)
        } else {
            addresses
        },
        None => addresses,
    }
}

/// The addresses after the symbols from index `j` on have been seen, in
/// order: a later symbol of the same name overrides an earlier one.
pub open spec fn resolve(
    image: Seq<u8>,
    symbols_at: int,
    count: int,
    strings: Seq<u8>,
    bias: int,
    names: Seq<Seq<u8>>,
    addresses: Seq<usize>,
    j: int,
) -> Result<Seq<usize>, ElfError>
    decreases count - j,
{
    if j < 0 || j >= count {
        Ok(addresses)
    } else if symbols_at + j * SIZEOF_SYM + SIZEOF_SYM > image.len() {
        Err(ElfError::Truncated)
    } else {
        let sym = symbol_at(image, symbols_at + j * SIZEOF_SYM);
        if sym.st_name > strings.len() {
            Err(ElfError::Malformed)
        } else {
            resolve(
                image,
                symbols_at,
                count,
                strings,
                bias,
                names,
                record_symbol(
                    addresses,
                    names,
                    symbol_name(strings, sym.st_name as int),
                    bias + sym.st_value,
                ),
                j + 1,
            )
        }
    }
}

/// The addresses that the symbol table `symtab` gives to `names`.
pub open spec fn scan_symtab(
    image: Seq<u8>,
    header: ElfHeader,
    symtab: SectionHeader,
    bias: int,
    names: Seq<Seq<u8>>,
) -> Result<Seq<usize>, ElfError> {
    if symtab.sh_link >= header.e_shnum {
        Err(ElfError::Malformed)
    } else if section_offset(header, symtab.sh_link as int) + SIZEOF_SHDR > image.len() {
        Err(ElfError::Truncated)
    } else {
        let strtab = section_header_at(image, section_offset(header, symtab.sh_link as int));
        if strtab.sh_offset + strtab.sh_size > image.len() {
            Err(ElfError::Truncated)
        } else {
            resolve(
                image,
                symtab.sh_offset as int,
                symtab.sh_size as int / SIZEOF_SYM as int,
                image.subrange(strtab.sh_offset as int, strtab.sh_offset + strtab.sh_size),
                bias,
                names,
                Seq::new(names.len(), |k: int| 0usize),
                0,
            )
        }
    }
}

/// The run-time address of each of `names` in the executable whose file is
/// `image` and whose program headers lie at `phdr_address` in memory.
///
/// The load bias is `phdr_address` less the program headers' file offset. The
/// first symbol table of the image is walked; a name gets the bias plus the
/// value of the last symbol called so, and 0 if there is none or no symbol table.
pub open spec fn scan(image: Seq<u8>, phdr_address: usize, names: Seq<Seq<u8>>) -> Result<
    Seq<usize>,
    ElfError,
> {
    if image.len() < SIZEOF_EHDR {
        Err(ElfError::Truncated)
    } else if image[EI_CLASS as int] != ELFCLASS64 || image[EI_DATA as int] != ELFDATA2LSB {
        Err(ElfError::Unsupported)
    } else {
        let header = header_of(image);
        if header.e_phoff > phdr_address {
            Err(ElfError::Malformed)
        } else if header.e_shentsize != SIZEOF_SHDR {
            Err(ElfError::Unsupported)
        } else {
            match find_symtab(image, header, 0) {
                Err(e) => Err(e),
                Ok(None) => Ok(Seq::new(names.len(), |k: int| 0usize)),
                Ok(Some(i)) => scan_symtab(
                    image,
                    header,
                    section_header_at(image, section_offset(header, i)),
                    phdr_address - header.e_phoff,
                    names,
                ),
            }
        }
    }
}

/// Whether the data encoding byte of an image names a byte order.
pub open spec fn names_byte_order(image: Seq<u8>) -> bool {
    image[EI_DATA as int] == ELFDATA2LSB || image[EI_DATA as int] == ELFDATA2MSB
}

/// Whether the data encoding byte of an image says "little endian".
pub open spec fn is_little_endian(image: Seq<u8>) -> bool {
    image[EI_DATA as int] == ELFDATA2LSB
}

/// The bytes of each of `names`.
pub open spec fn names_bytes(names: Seq<&str>) -> Seq<Seq<u8>> {
    Seq::new(names.len(), |k: int| names[k].spec_bytes())
}

/// `goblin::elf64::header::Header::parse`: the file header of a 64-bit image.
///
/// It reads the 16 identification bytes, takes the byte order from the data
/// encoding byte and fails on any other value than "little endian" and "big
/// endian", then reads the header's fields one after the other and fails if
/// the image ends before the last of them. For a little-endian image the
/// fields are the numbers at their fixed places.
#[verifier::external_body]
fn read_header(image: &[u8]) -> (parsed: Option<ElfHeader>)
    ensures
        parsed is Some <==> (SIZEOF_EHDR <= image@.len() && names_byte_order(image@)),
        parsed is Some && is_little_endian(image@) ==> parsed == Some(header_of(image@)),
{
    match goblin::elf64::header::Header::parse(image) {
        Ok(header) => Some(
            ElfHeader {
                e_phoff: header.e_phoff,
                e_shoff: header.e_shoff,
                e_shentsize: header.e_shentsize,
                e_shnum: header.e_shnum,
            },
        ),
        Err(_) => None,
    }
}

/// `goblin::elf::SectionHeader::parse_from`, asked for one section header of
/// a little-endian 64-bit image at `at`.
///
/// It fails if the 64 bytes from `at` on do not lie inside the image;
/// otherwise the fields are the numbers at their fixed places.
#[verifier::external_body]
fn read_section_header(image: &[u8], at: usize) -> (section: Option<SectionHeader>)
    ensures
        section is Some <==> at + SIZEOF_SHDR <= image@.len(),
        section is Some ==> section == Some(section_header_at(image@, at as int)),
{
    let ctx = goblin::container::Ctx::new(
        goblin::container::Container::Big,
        goblin::container::Endian::Little,
    );
    match goblin::elf::SectionHeader::parse_from(image, at, 1, ctx) {
        Ok(sections) => Some(
            SectionHeader {
                sh_type: sections[0].sh_type,
                sh_offset: sections[0].sh_offset,
                sh_size: sections[0].sh_size,
                sh_link: sections[0].sh_link,
            },
        ),
        Err(_) => None,
    }
}

/// `goblin::elf::Sym::parse`, asked for one symbol of a little-endian 64-bit
/// image at `at`.
///
/// It fails if the 24 bytes from `at` on do not lie inside the image;
/// otherwise the fields are the numbers at their fixed places.
#[verifier::external_body]
fn read_symbol(image: &[u8], at: usize) -> (symbol: Option<Sym>)
    ensures
        symbol is Some <==> at + SIZEOF_SYM <= image@.len(),
        symbol is Some ==> symbol == Some(symbol_at(image@, at as int)),
{
    let ctx = goblin::container::Ctx::new(
        goblin::container::Container::Big,
        goblin::container::Endian::Little,
    );
    match goblin::elf::Sym::parse(image, at, 1, ctx) {
        Ok(symbols) => Some(Sym { st_name: symbols[0].st_name, st_value: symbols[0].st_value }),
        Err(_) => None,
    }
}

/// Whether the `n` bytes of `image` from `start` on are the bytes of `name`.
fn equal_range(image: &[u8], start: usize, n: usize, name: &[u8]) -> (equal: bool)
    requires
        start + n <= image@.len(),
    ensures
        equal == (image@.subrange(start as int, start + n) == name@),
{
    if name.len() != n {
        return false;
    }
    let total = image.len();
    let mut t: usize = 0;
    while t < n
        invariant
            t <= n,
            n == name@.len(),
            total == image@.len(),
            start + n <= image@.len(),
            forall|u: int| 0 <= u < t ==> image@[start + u] == name@[u],
        decreases n - t,
    {
        if image[start + t] != name[t] {
            assert(image@.subrange(start as int, start + n)[t as int] != name@[t as int]);
            return false;
        }
        t += 1;
    }
    assert(image@.subrange(start as int, start + n) =~= name@);
    true
}

/// The first symbol table among the sections of the image.
fn first_symtab(image: &[u8], header: ElfHeader) -> (result: Result<
    Option<SectionHeader>,
    ElfError,
>)
    ensures
        match result {
            Ok(Some(section)) => find_symtab(image@, header, 0) matches Ok(Some(i)) && section
                == section_header_at(image@, section_offset(header, i)),
            Ok(None) => find_symtab(image@, header, 0) == Ok::<Option<int>, ElfError>(None),
            Err(e) => find_symtab(image@, header, 0) == Err::<Option<int>, ElfError>(e),
        },
{
    let mut i: u16 = 0;
    while i < header.e_shnum
        invariant
            i <= header.e_shnum,
            find_symtab(image@, header, 0) == find_symtab(image@, header, i as int),
        decreases header.e_shnum - i,
    {
        let at: u128 = header.e_shoff as u128 + (i as u128) * (SIZEOF_SHDR as u128);
        if at + SIZEOF_SHDR as u128 > image.len() as u128 {
            return Err(ElfError::Truncated);
        }
        match read_section_header(image, at as usize) {
            Some(section) => {
                if section.sh_type == SHT_SYMTAB {
                    return Ok(Some(section));
                }
            },
            None => {
                return Err(ElfError::Truncated);
            },
        }
        i += 1;
    }
    Ok(None)
}

/// The length of the name that starts `at` bytes into the string table,
/// which is the `len` bytes of `image` from `strings_at` on.
fn name_length(image: &[u8], strings_at: usize, len: usize, at: usize) -> (n: usize)
    requires
        strings_at + len <= image@.len(),
        at <= len,
    ensures
        n == name_len(image@.subrange(strings_at as int, strings_at + len), at as int),
        at + n <= len,
{
    let ghost strings = image@.subrange(strings_at as int, strings_at + len);
    let total = image.len();
    let mut n: usize = 0;
    while at + n < len && image[strings_at + at + n] != 0
        invariant
            at + n <= len,
            total == image@.len(),
            strings_at + len <= image@.len(),
            strings == image@.subrange(strings_at as int, strings_at + len),
            name_len(strings, at as int) == n + name_len(strings, at + n),
        decreases len - at - n,
    {
        assert(strings[at + n] == image@[strings_at + at + n]);
        n += 1;
    }
    proof {
        if at + n < len {
            assert(strings[at + n] == image@[strings_at + at + n]);
        }
    }
    n
}

/// The addresses that the symbol table `symtab` gives to `names`.
fn scan_symbols(
    image: &[u8],
    header: ElfHeader,
    symtab: SectionHeader,
    bias: usize,
    names: &[&str],
) -> (result: Result<Vec<usize>, ElfError>)
    ensures
        match result {
            Ok(addresses) => scan_symtab(image@, header, symtab, bias as int, names_bytes(names@))
                == Ok::<Seq<usize>, ElfError>(addresses@),
            Err(e) => scan_symtab(image@, header, symtab, bias as int, names_bytes(names@))
                == Err::<Seq<usize>, ElfError>(e),
        },
{
    if symtab.sh_link >= header.e_shnum as u32 {
        return Err(ElfError::Malformed);
    }
    let strtab_at: u128 = header.e_shoff as u128 + (symtab.sh_link as u128) * (SIZEOF_SHDR as u128);
    if strtab_at + SIZEOF_SHDR as u128 > image.len() as u128 {
        return Err(ElfError::Truncated);
    }
    let strtab = match read_section_header(image, strtab_at as usize) {
        Some(section) => section,
        None => {
            return Err(ElfError::Truncated);
        },
    };
    if strtab.sh_offset as u128 + strtab.sh_size as u128 > image.len() as u128 {
        return Err(ElfError::Truncated);
    }
    let strings_at: usize = strtab.sh_offset as usize;
    let strings_len: usize = strtab.sh_size as usize;
    let count: u64 = symtab.sh_size / (SIZEOF_SYM as u64);
    let ghost strings = image@.subrange(strings_at as int, strings_at + strings_len);
    let ghost targets = names_bytes(names@);

    let mut addresses: Vec<usize> = Vec::new();
    let mut k: usize = 0;
    while k < names.len()
        invariant
            k <= names@.len(),
            addresses@ == Seq::new(k as nat, |k: int| 0usize),
        decreases names@.len() - k,
    {
        addresses.push(0);
        k += 1;
        assert(addresses@ =~= Seq::new(k as nat, |k: int| 0usize));
    }

    let total = image.len();
    assert(targets.len() == names@.len());
    let mut j: u64 = 0;
    while j < count
        invariant
            j <= count,
            count == symtab.sh_size as int / SIZEOF_SYM as int,
            total == image@.len(),
            strings_at + strings_len <= image@.len(),
            strings == image@.subrange(strings_at as int, strings_at + strings_len),
            targets == names_bytes(names@),
            addresses@.len() == names@.len(),
            scan_symtab(image@, header, symtab, bias as int, targets) == resolve(
                image@,
                symtab.sh_offset as int,
                count as int,
                strings,
                bias as int,
                targets,
                addresses@,
                j as int,
            ),
        decreases count - j,
    {
        let at: u128 = symtab.sh_offset as u128 + (j as u128) * (SIZEOF_SYM as u128);
        if at + SIZEOF_SYM as u128 > image.len() as u128 {
            return Err(ElfError::Truncated);
        }
        let sym = match read_symbol(image, at as usize) {
            Some(sym) => sym,
            None => {
                return Err(ElfError::Truncated);
            },
        };
        if sym.st_name > strings_len {
            return Err(ElfError::Malformed);
        }
        let n = name_length(image, strings_at, strings_len, sym.st_name);
        let ghost name = symbol_name(strings, sym.st_name as int);
        assert(name =~= image@.subrange(strings_at + sym.st_name, strings_at + sym.st_name + n));
        let address: u128 = bias as u128 + sym.st_value as u128;
        let mut k: usize = 0;
        let ghost before = addresses@;
        let mut found = false;
        while !found && k < names.len()
            invariant
                k <= names@.len(),
                addresses@.len() == names@.len(),
                targets == names_bytes(names@),
                total == image@.len(),
                strings_at + sym.st_name + n <= image@.len(),
                name == image@.subrange(strings_at + sym.st_name, strings_at + sym.st_name + n),
                !found ==> first_match(targets, name, 0) == first_match(targets, name, k as int),
                !found ==> addresses@ == before,
                found ==> addresses@ == record_symbol(before, targets, name, address as int),
                address == bias + sym.st_value,
            decreases names@.len() - k + if found { 0int } else { 1int },
        {
            if equal_range(image, strings_at + sym.st_name, n, names[k].as_bytes()) {
                if address <= usize::MAX as u128 {
                    addresses.set(k, address as usize);
                }
                found = true;
            } else {
                k += 1;
            }
        }
        j += 1;
    }
    Ok(addresses)
}

/// Looks up the run-time address of each of `names` in the executable whose
/// file is `image` and whose program headers lie at `phdr_address` in memory.
///
/// A name that the image's first symbol table does not hold gets 0, and so
/// does every name if the image has no symbol table.
pub fn find_internal_syms(image: &[u8], phdr_address: usize, names: &[&str]) -> (result: Result<
    Vec<usize>,
    ElfError,
>)
    ensures
        match result {
            Ok(addresses) => scan(image@, phdr_address, names_bytes(names@)) == Ok::<
                Seq<usize>,
                ElfError,
            >(addresses@),
            Err(e) => scan(image@, phdr_address, names_bytes(names@)) == Err::<
                Seq<usize>,
                ElfError,
            >(e),
        },
{
    if image.len() < SIZEOF_EHDR {
        return Err(ElfError::Truncated);
    }
    if image[EI_CLASS] != ELFCLASS64 || image[EI_DATA] != ELFDATA2LSB {
        return Err(ElfError::Unsupported);
    }
    let header = match read_header(image) {
        Some(header) => header,
        None => {
            return Err(ElfError::Truncated);
        },
    };
    if header.e_phoff > phdr_address as u64 {
        return Err(ElfError::Malformed);
    }
    if header.e_shentsize as usize != SIZEOF_SHDR {
        return Err(ElfError::Unsupported);
    }
    let bias: usize = phdr_address - header.e_phoff as usize;
    match first_symtab(image, header) {
        Err(e) => Err(e),
        Ok(None) => {
            let mut addresses: Vec<usize> = Vec::new();
            let mut k: usize = 0;
            while k < names.len()
                invariant
                    k <= names@.len(),
                    addresses@ == Seq::new(k as nat, |k: int| 0usize),
                decreases names@.len() - k,
            {
                addresses.push(0);
                k += 1;
                assert(addresses@ =~= Seq::new(k as nat, |k: int| 0usize));
            }
            assert(names_bytes(names@).len() == names@.len());
            Ok(addresses)
        },
        Ok(Some(symtab)) => scan_symbols(image, header, symtab, bias, names),
    }
}

/// The first match, if there is one, is an index of `names` at which `name` stands.
pub proof fn lemma_first_match(names: Seq<Seq<u8>>, name: Seq<u8>, k: int)
    requires
        0 <= k,
    ensures
        first_match(names, name, k) matches Some(i) ==> k <= i < names.len() && names[i] == name,
        first_match(names, name, k) is None ==> forall|i: int|
            k <= i < names.len() ==> names[i] != name,
    decreases names.len() - k,
{
    if k < names.len() && names[k] != name {
        lemma_first_match(names, name, k + 1);
    }
}

/// Seeing the symbols from index `j` on leaves the number of addresses as it is.
proof fn lemma_resolve_length(
    image: Seq<u8>,
    symbols_at: int,
    count: int,
    strings: Seq<u8>,
    bias: int,
    names: Seq<Seq<u8>>,
    addresses: Seq<usize>,
    j: int,
)
    requires
        addresses.len() == names.len(),
    ensures
        resolve(image, symbols_at, count, strings, bias, names, addresses, j) matches Ok(found)
            ==> found.len() == addresses.len(),
    decreases count - j,
{
    if 0 <= j < count && symbols_at + j * SIZEOF_SYM + SIZEOF_SYM <= image.len() {
        let sym = symbol_at(image, symbols_at + j * SIZEOF_SYM);
        if sym.st_name <= strings.len() {
            lemma_first_match(names, symbol_name(strings, sym.st_name as int), 0);
            lemma_resolve_length(
                image,
                symbols_at,
                count,
                strings,
                bias,
                names,
                record_symbol(
                    addresses,
                    names,
                    symbol_name(strings, sym.st_name as int),
                    bias + sym.st_value,
                ),
                j + 1,
            );
        }
    }
}

/// A scan that succeeds gives one address for each name.
pub proof fn lemma_scan_length(image: Seq<u8>, phdr_address: usize, names: Seq<Seq<u8>>)
    ensures
        scan(image, phdr_address, names) matches Ok(addresses) ==> addresses.len() == names.len(),
{
    if let Ok(addresses) = scan(image, phdr_address, names) {
        let header = header_of(image);
        if let Ok(Some(i)) = find_symtab(image, header, 0) {
            let symtab = section_header_at(image, section_offset(header, i));
            let strtab = section_header_at(image, section_offset(header, symtab.sh_link as int));
            lemma_resolve_length(
                image,
                symtab.sh_offset as int,
                symtab.sh_size as int / SIZEOF_SYM as int,
                image.subrange(strtab.sh_offset as int, strtab.sh_offset + strtab.sh_size),
                phdr_address - header.e_phoff,
                names,
                Seq::new(names.len(), |k: int| 0usize),
                0,
            );
        }
    }
}

} // verus!
