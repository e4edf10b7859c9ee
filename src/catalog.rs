//! The catalog of a module's exports: built once from the module's image,
//! then looked up by name or by identifier.
use vstd::prelude::*;
use crate::exports::{
    enumerate, expected_exports, lemma_full_enumeration_count, records, table_ok, ExportRecord,
    Function,
};
use crate::image::{declared_directory, headers_ok, DumpError, ImageView};
use crate::loader::starts_with_text;

verus! {

/// The records of the catalog of the image `b` mapped at `base`, or the error
/// that building it meets first.
pub open spec fn catalog_exports(
    b: Seq<u8>,
    base: usize,
    only_dump_ntdll_syscalls: bool,
) -> Result<Seq<ExportRecord>, DumpError> {
    let d = declared_directory(b);
    if !headers_ok(b) {
        Err(DumpError::InvalidImage)
    } else if d.number_of_functions == 0 {
        Err(DumpError::EmptyExportTable)
    } else if !table_ok(b, base, d, only_dump_ntdll_syscalls) {
        Err(DumpError::InvalidImage)
    } else {
        Ok(
            expected_exports(
                b,
                base,
                d,
                only_dump_ntdll_syscalls,
                d.number_of_functions as nat,
            ),
        )
    }
}

/// Full enumeration of a well-formed image yields exactly one record per
/// function that its export directory declares.
pub proof fn lemma_full_catalog_size(b: Seq<u8>, base: usize)
    requires
        headers_ok(b),
        declared_directory(b).number_of_functions != 0,
        table_ok(b, base, declared_directory(b), false),
    ensures
        catalog_exports(b, base, false) is Ok,
        catalog_exports(b, base, false)->Ok_0.len() == declared_directory(b).number_of_functions,
{
    let d = declared_directory(b);
    lemma_full_enumeration_count(b, base, d, d.number_of_functions as nat);
}

/// Whether two texts are equal.
pub fn text_equals(a: &str, b: &str) -> (r: bool)
    ensures
        r == (a@ == b@),
{
    if a.unicode_len() != b.unicode_len() {
        return false;
    }
    let r = starts_with_text(a, b);
    proof {
        if r {
            assert(a@ =~= a@.subrange(0, b@.len() as int));
        }
        if a@ == b@ {
            assert(a@.subrange(0, b@.len() as int) =~= b@);
        }
    }
    r
}

/// A criterion that selects catalog records.
pub trait SearchKey {
    spec fn selects(&self, f: ExportRecord) -> bool;

    fn matches(&self, function: &Function) -> (r: bool)
        ensures
            r == self.selects(function@),
    ;
}

/// Selects the record whose name is exactly this text.
impl SearchKey for &str {
    open spec fn selects(&self, f: ExportRecord) -> bool {
        f.name == (*self)@
    }

    fn matches(&self, function: &Function) -> (r: bool) {
        text_equals(function.get_name(), *self)
    }
}

/// Selects the record whose identifier (call number or fallback) is this value.
impl SearchKey for usize {
    open spec fn selects(&self, f: ExportRecord) -> bool {
        f.ord == *self
    }

    fn matches(&self, function: &Function) -> (r: bool) {
        function.get_ord() == *self
    }
}

/// Builds the records of a module's catalog from its image: only the
/// system-call stubs, each with its call number, when
/// `only_dump_ntdll_syscalls` is set; every export otherwise.
pub fn dump(image: &ImageView, only_dump_ntdll_syscalls: bool) -> (r: Result<
    Vec<Function>,
    DumpError,
>)
    ensures
        r matches Ok(v) ==> catalog_exports(image.bytes@, image.base, only_dump_ntdll_syscalls)
            == Ok::<Seq<ExportRecord>, DumpError>(records(v@)),
        r matches Err(e) ==> catalog_exports(image.bytes@, image.base, only_dump_ntdll_syscalls)
            == Err::<Seq<ExportRecord>, DumpError>(e),
{
    let dir = image.export_directory()?;
    enumerate(image, &dir, only_dump_ntdll_syscalls)
}

/// What a catalog holds.
pub struct CatalogModel {
    pub handle: usize,
    pub name: Seq<char>,
    pub exports: Seq<ExportRecord>,
}

/// The export catalog of one loaded module.
#[derive(Debug, Clone)]
pub struct DumpMod {
    handle: usize,
    name: String,
    exports: Vec<Function>,
}

impl View for DumpMod {
    type V = CatalogModel;

    closed spec fn view(&self) -> CatalogModel {
        CatalogModel { handle: self.handle, name: self.name@, exports: records(self.exports@) }
    }
}

impl DumpMod {
    /// Builds the catalog of the module found under `path`, whose image is
    /// `image`; its handle is the image's base address.
    pub fn new(path: &str, image: &ImageView, only_dump_ntdll_syscalls: bool) -> (r: Result<
        Self,
        DumpError,
    >)
        ensures
            r matches Ok(m) ==> m@.handle == image.base && m@.name == path@ && catalog_exports(
                image.bytes@,
                image.base,
                only_dump_ntdll_syscalls,
            ) == Ok::<Seq<ExportRecord>, DumpError>(m@.exports),
            r matches Err(e) ==> catalog_exports(
                image.bytes@,
                image.base,
                only_dump_ntdll_syscalls,
            ) == Err::<Seq<ExportRecord>, DumpError>(e),
    {
        let exports = dump(image, only_dump_ntdll_syscalls)?;
        Ok(DumpMod { handle: image.base, name: path.to_owned(), exports })
    }

    /// The module's base address.
    pub fn get_handle(&self) -> (r: usize)
        ensures
            r == self@.handle,
    {
        self.handle
    }

    /// The path fragment that the module was found under.
    pub fn get_name(&self) -> (r: &str)
        ensures
            r@ == self@.name,
    {
        self.name.as_str()
    }

    /// The records, in export-directory order.
    pub fn get_exports(&self) -> (r: &Vec<Function>)
        ensures
            records(r@) == self@.exports,
    {
        &self.exports
    }

    /// The first record that `key` selects, or `None` when it selects none.
    pub fn search_fn<T: SearchKey + Clone>(&self, key: T) -> (r: Option<Function>)
        ensures
            r is None <==> forall|i: int|
                0 <= i < self@.exports.len() ==> !key.selects(#[trigger] self@.exports[i]),
            r matches Some(f) ==> exists|i: int|
                0 <= i < self@.exports.len() && f@ == #[trigger] self@.exports[i] && key.selects(
                    f@,
                ) && forall|j: int| 0 <= j < i ==> !key.selects(#[trigger] self@.exports[j]),
    {
        let mut i: usize = 0;
        while i < self.exports.len()
            invariant
                i <= self.exports@.len(),
                forall|j: int| 0 <= j < i ==> !key.selects(#[trigger] records(self.exports@)[j]),
            decreases self.exports@.len() - i,
        {
            let f = &self.exports[i];
            if key.matches(f) {
                let found = f.duplicate();
                assert(self@.exports == records(self.exports@));
                assert(self@.exports[i as int] == found@);
                assert(key.selects(self@.exports[i as int]));
                return Some(found);
            }
            i = i + 1;
        }
        assert(self@.exports == records(self.exports@));
        None
    }
}

} // verus!
