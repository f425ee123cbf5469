//! The plan for diverting a statically linked jemalloc to the interceptor.
//!
//! Where the allocator is linked into the executable, its entry points cannot
//! be interposed by the dynamic linker. Each one that the executable's symbol
//! table holds gets an absolute indirect jump to its replacement written over
//! its first bytes. What is written where is decided here; the writing is the
//! caller's.

use vstd::prelude::*;
use vstd::bytes::{spec_u64_to_le_bytes, u64_to_le_bytes};
use crate::symbols::{find_internal_syms, lemma_scan_length, names_bytes, scan, ElfError};

verus! {

/// The size of a page of memory.
pub const PAGE_SIZE: usize = 4096;

/// The number of entry points that are diverted.
pub const JEMALLOC_SYMBOL_COUNT: usize = 18;

/// One entry point to divert.
#[derive(Clone, Copy, Debug, PartialEq, Eq, Structural)]
pub struct Patch {
    /// The start of the page that holds `address`, to be made writable.
    pub page: usize,
    /// Where the entry point starts, and the jump is written.
    pub address: usize,
    /// Where the jump leads.
    pub replacement: usize,
}

/// The names of the entry points, in the order of their replacements.
pub open spec fn jemalloc_symbols() -> Seq<&'static str> {
    seq![
        "_rjem_malloc",
        "_rjem_mallocx",
        "_rjem_calloc",
        "_rjem_sdallocx",
        "_rjem_realloc",
        "_rjem_rallocx",
        "_rjem_nallocx",
        "_rjem_xallocx",
        "_rjem_malloc_usable_size",
        "_rjem_mallctl",
        "_rjem_posix_memalign",
        "_rjem_aligned_alloc",
        "_rjem_free",
        "_rjem_sallocx",
        "_rjem_dallocx",
        "_rjem_mallctlnametomib",
        "_rjem_mallctlbymib",
        "_rjem_malloc_stats_print",
    ]
}

/// The start of the page that holds `address`.
pub open spec fn page_of(address: usize) -> usize {
    (address - address % PAGE_SIZE) as usize
}

/// The code of the jump to `replacement`: `jmp [rip+0]`, whose six bytes are
/// followed by the eight bytes of the destination, lowest first.
pub open spec fn trampoline_code(replacement: usize) -> Seq<u8> {
    seq![0xFFu8, 0x25u8, 0x00u8, 0x00u8, 0x00u8, 0x00u8] + spec_u64_to_le_bytes(replacement as u64)
}

/// What is to be done for the entry points found at `addresses`: nothing at
/// all if none was found, and otherwise, for each in turn, its patch, or
/// nothing where it was not found.
pub open spec fn plan(addresses: Seq<usize>, replacements: Seq<usize>) -> Seq<Option<Patch>> {
    if forall|k: int| 0 <= k < addresses.len() ==> addresses[k] == 0 {
        Seq::empty()
    } else {
        Seq::new(
            addresses.len(),
            |k: int|
                if addresses[k] == 0 {
                    None
                } else {
                    Some(
                        Patch {
                            page: page_of(addresses[k]),
                            address: addresses[k],
                            replacement: replacements[k],
                        },
                    )
                },
        )
    }
}

/// The names of the entry points, in the order of their replacements.
pub fn jemalloc_names() -> (names: Vec<&'static str>)
    ensures
        names@ == jemalloc_symbols(),
{
    let mut names: Vec<&'static str> = Vec::new();
    names.push("_rjem_malloc");
    names.push("_rjem_mallocx");
    names.push("_rjem_calloc");
    names.push("_rjem_sdallocx");
    names.push("_rjem_realloc");
    names.push("_rjem_rallocx");
    names.push("_rjem_nallocx");
    names.push("_rjem_xallocx");
    names.push("_rjem_malloc_usable_size");
    names.push("_rjem_mallctl");
    names.push("_rjem_posix_memalign");
    names.push("_rjem_aligned_alloc");
    names.push("_rjem_free");
    names.push("_rjem_sallocx");
    names.push("_rjem_dallocx");
    names.push("_rjem_mallctlnametomib");
    names.push("_rjem_mallctlbymib");
    names.push("_rjem_malloc_stats_print");
    assert(names@ =~= jemalloc_symbols());
    names
}

/// The code of the jump to `replacement`.
pub fn trampoline(replacement: usize) -> (code: Vec<u8>)
    ensures
        code@ == trampoline_code(replacement),
        code@.len() == 14,
{
    let mut code: Vec<u8> = Vec::new();
    code.push(0xFF);
    code.push(0x25);
    code.push(0x00);
    code.push(0x00);
    code.push(0x00);
    code.push(0x00);
    let mut destination = u64_to_le_bytes(replacement as u64);
    code.append(&mut destination);
    assert(code@ =~= trampoline_code(replacement));
    code
}

/// What is to be done for the entry points found at `addresses`.
pub fn plan_patches(addresses: &[usize], replacements: &[usize]) -> (patches: Vec<Option<Patch>>)
    requires
        addresses@.len() == replacements@.len(),
    ensures
        patches@ == plan(addresses@, replacements@),
{
    let n = addresses.len();
    let mut any = false;
    let mut k: usize = 0;
    while k < n
        invariant
            k <= n,
            n == addresses@.len(),
            any <==> exists|i: int| 0 <= i < k && addresses@[i] != 0,
        decreases n - k,
    {
        if addresses[k] != 0 {
            any = true;
        }
        k += 1;
    }
    let mut patches: Vec<Option<Patch>> = Vec::new();
    if !any {
        return patches;
    }
    let mut k: usize = 0;
    while k < n
        invariant
            k <= n,
            n == addresses@.len(),
            n == replacements@.len(),
            patches@.len() == k,
            exists|i: int| 0 <= i < n && addresses@[i] != 0,
            forall|i: int| 0 <= i < k ==> patches@[i] == plan(addresses@, replacements@)[i],
        decreases n - k,
    {
        let address = addresses[k];
        if address == 0 {
            patches.push(None);
        } else {
            patches.push(
                Some(
                    Patch {
                        page: address - address % PAGE_SIZE,
                        address,
                        replacement: replacements[k],
                    },
                ),
            );
        }
        k += 1;
    }
    assert(patches@ =~= plan(addresses@, replacements@));
    patches
}

/// Plans the diversion of the allocator in the executable whose file is
/// `image` and whose program headers lie at `phdr_address` in memory, to the
/// `replacements`, which come in the order of `jemalloc_symbols`.
///
/// The plan is empty if the executable holds none of the entry points. An
/// entry point that is missing has no patch; the others are patched as they
/// come: the page is made writable, the code of `trampoline` is written at
/// the address, and the page is made read-only again.
pub fn hook_jemalloc(image: &[u8], phdr_address: usize, replacements: &[usize]) -> (result: Result<
    Vec<Option<Patch>>,
    ElfError,
>)
    requires
        replacements@.len() == JEMALLOC_SYMBOL_COUNT,
    ensures
        match result {
            Ok(patches) => scan(image@, phdr_address, names_bytes(jemalloc_symbols())) matches Ok(
                addresses,
            ) && patches@ == plan(addresses, replacements@),
            Err(e) => scan(image@, phdr_address, names_bytes(jemalloc_symbols())) == Err::<
                Seq<usize>,
                ElfError,
            >(e),
        },
{
    let names = jemalloc_names();
    match find_internal_syms(image, phdr_address, names.as_slice()) {
        Ok(addresses) => {
            proof {
                lemma_scan_length(image@, phdr_address, names_bytes(jemalloc_symbols()));
            }
            Ok(plan_patches(addresses.as_slice(), replacements))
        },
        Err(e) => Err(e),
    }
}

} // verus!
