//! The content registry: all files of a content pack, grouped by domain.

use vstd::prelude::*;

use crate::error::ServiceError;
use crate::strmap::{enumerates_keys, str_views, StrMap};

verus! {

/// A single file from a content pack, indexed in the registry.
#[derive(Clone, Debug)]
pub struct RegistryEntry {
    /// Filename (e.g. "items_edible.ron").
    pub filename: String,
    /// Raw file bytes.
    pub data: Vec<u8>,
}

/// The abstract content of one domain: filename to bytes.
pub open spec fn files_view(files: StrMap<Vec<u8>>) -> Map<Seq<char>, Seq<u8>> {
    files@.map_values(|b: Vec<u8>| b@)
}

/// The abstract content of a registry after adding `data` as `filename`
/// in `domain` (creating the domain when it is new).
pub open spec fn with_file(
    reg: Map<Seq<char>, Map<Seq<char>, Seq<u8>>>,
    domain: Seq<char>,
    filename: Seq<char>,
    data: Seq<u8>,
) -> Map<Seq<char>, Map<Seq<char>, Seq<u8>>> {
    let files = if reg.contains_key(domain) {
        reg[domain]
    } else {
        Map::empty()
    };
    reg.insert(domain, files.insert(filename, data))
}

/// The bytes of `filename` in `domain`, if the registry holds such a file.
pub open spec fn file_in(
    reg: Map<Seq<char>, Map<Seq<char>, Seq<u8>>>,
    domain: Seq<char>,
    filename: Seq<char>,
) -> Option<Seq<u8>> {
    if reg.contains_key(domain) && reg[domain].contains_key(filename) {
        Some(reg[domain][filename])
    } else {
        None
    }
}

/// `entries` lists every file of `files` exactly once, each with its bytes.
pub open spec fn lists_files(entries: Seq<RegistryEntry>, files: Map<Seq<char>, Seq<u8>>) -> bool {
    &&& enumerates_keys(entries.map_values(|e: RegistryEntry| e.filename@), files)
    &&& forall|i: int|
        0 <= i < entries.len() ==> files[#[trigger] entries[i].filename@] == entries[i].data@
}

/// All data from a content pack, grouped by domain.
///
/// The registry is an in-memory file system: domain, then filename, then
/// raw bytes.  It does not know the structure of the data inside files;
/// each plugin decides how to parse the bytes it receives.
#[derive(Clone, Debug)]
pub struct Registry {
    domains: StrMap<StrMap<Vec<u8>>>,
}

impl Registry {
    /// Domain to (filename to bytes).
    pub closed spec fn contents(self) -> Map<Seq<char>, Map<Seq<char>, Seq<u8>>> {
        self.domains@.map_values(|f: StrMap<Vec<u8>>| files_view(f))
    }

    /// The domain names in the order in which the domains were created.
    pub closed spec fn domain_order(self) -> Seq<Seq<char>> {
        self.domains.key_order()
    }

    /// Create an empty registry.
    pub fn new() -> (r: Self)
        ensures
            r@ == Map::<Seq<char>, Map<Seq<char>, Seq<u8>>>::empty(),
            r.domain_order() == Seq::<Seq<char>>::empty(),
    {
        let r = Registry { domains: StrMap::new() };
        assert(r.contents() =~= Map::<Seq<char>, Map<Seq<char>, Seq<u8>>>::empty());
        r
    }

    /// All files of a domain.
    pub fn domain(&self, name: &str) -> (r: Result<&StrMap<Vec<u8>>, ServiceError>)
        ensures
            match r {
                Ok(files) => self@.contains_key(name@) && files_view(*files) == self@[name@],
                Err(e) => !self@.contains_key(name@) && (e matches ServiceError::RegistryDomainNotFound(
                    n,
                ) && n@ == name@),
            },
    {
        match self.domains.get(name) {
            Some(files) => Ok(files),
            None => Err(ServiceError::RegistryDomainNotFound(name.to_owned())),
        }
    }

    /// Raw bytes of a file within a domain.
    pub fn file(&self, domain: &str, filename: &str) -> (r: Result<&[u8], ServiceError>)
        ensures
            match r {
                Ok(bytes) => file_in(self@, domain@, filename@) == Some(bytes@),
                Err(e) => file_in(self@, domain@, filename@) is None && (e matches ServiceError::FileNotFound {
                    domain: d,
                    filename: f,
                } && d@ == domain@ && f@ == filename@),
            },
    {
        if let Some(files) = self.domains.get(domain) {
            if let Some(data) = files.get(filename) {
                return Ok(data.as_slice());
            }
        }
        Err(ServiceError::FileNotFound { domain: domain.to_owned(), filename: filename.to_owned() })
    }

    /// All entries of a domain (filename and bytes), each file once.
    pub fn domain_entries(&self, name: &str) -> (r: Result<Vec<RegistryEntry>, ServiceError>)
        ensures
            match r {
                Ok(entries) => self@.contains_key(name@) && lists_files(entries@, self@[name@]),
                Err(e) => !self@.contains_key(name@) && (e matches ServiceError::RegistryDomainNotFound(
                    n,
                ) && n@ == name@),
            },
    {
        let files = self.domain(name)?;
        let names = files.keys();
        let ghost fv = files_view(*files);
        let mut entries: Vec<RegistryEntry> = Vec::new();
        let mut i: usize = 0;
        while i < names.len()
            invariant
                i <= names@.len(),
                enumerates_keys(str_views(names@), files@),
                fv == files_view(*files),
                entries@.len() == i,
                forall|j: int|
                    0 <= j < i ==> (#[trigger] entries@[j]).filename@ == names@[j]@
                        && fv[names@[j]@] == entries@[j].data@,
            decreases names@.len() - i,
        {
            let name_i: &str = names[i];
            proof {
                assert(str_views(names@)[i as int] == name_i@);
                assert(str_views(names@).contains(name_i@));
            }
            match files.get(name_i) {
                Some(data) => {
                    let entry = RegistryEntry { filename: name_i.to_owned(), data: data.clone() };
                    proof {
                        assert(entry.data@ =~= data@);
                    }
                    entries.push(entry);
                },
                None => {},
            }
            i += 1;
        }
        proof {
            let fnames = entries@.map_values(|e: RegistryEntry| e.filename@);
            assert(fnames =~= str_views(names@));
            assert(fv.dom() =~= files@.dom());
        }
        Ok(entries)
    }

    /// Add a file to a domain, creating the domain when it is new; a file
    /// of the same name in that domain is replaced.  A new domain comes last
    /// in the order of domains; an existing one keeps its place.
    pub fn add_file(&mut self, domain: &str, filename: &str, data: Vec<u8>)
        ensures
            final(self)@ == with_file(old(self)@, domain@, filename@, data@),
            final(self).domain_order() == if old(self)@.contains_key(domain@) {
                old(self).domain_order()
            } else {
                old(self).domain_order().push(domain@)
            },
    {
        let mut files = match self.domains.replace(domain, StrMap::new()) {
            Some(files) => files,
            None => StrMap::new(),
        };
        let ghost before = files_view(files);
        files.insert(filename.to_owned(), data);
        proof {
            assert(files_view(files) =~= before.insert(filename@, data@));
        }
        self.domains.insert(domain.to_owned(), files);
        proof {
            let reg = old(self)@;
            let expected = with_file(reg, domain@, filename@, data@);
            if reg.contains_key(domain@) {
                assert(before == reg[domain@]);
            } else {
                assert(before =~= Map::<Seq<char>, Seq<u8>>::empty());
            }
            assert(self.contents() =~= expected);
        }
    }

    /// Whether a domain exists.
    pub fn has_domain(&self, name: &str) -> (b: bool)
        ensures
            b == self@.contains_key(name@),
    {
        self.domains.contains_key(name)
    }

    /// The names of all domains, each once, in the order in which the
    /// domains were created.
    pub fn domain_names(&self) -> (names: Vec<&str>)
        ensures
            str_views(names@) == self.domain_order(),
            enumerates_keys(str_views(names@), self@),
    {
        let names = self.domains.keys();
        proof {
            assert(self.contents().dom() =~= self.domains@.dom());
        }
        names
    }

    /// Number of domains.
    pub fn len(&self) -> (n: usize)
        ensures
            n == self@.len(),
    {
        proof {
            assert(self.contents().dom() =~= self.domains@.dom());
        }
        self.domains.len()
    }

    /// Whether the registry holds no domain.
    pub fn is_empty(&self) -> (b: bool)
        ensures
            b == (self@.len() == 0),
    {
        proof {
            assert(self.contents().dom() =~= self.domains@.dom());
        }
        self.domains.is_empty()
    }
}

impl View for Registry {
    type V = Map<Seq<char>, Map<Seq<char>, Seq<u8>>>;

    open spec fn view(&self) -> Map<Seq<char>, Map<Seq<char>, Seq<u8>>> {
        self.contents()
    }
}

impl Default for Registry {
    fn default() -> (r: Self)
        ensures
            r@ == Map::<Seq<char>, Map<Seq<char>, Seq<u8>>>::empty(),
            r.domain_order() == Seq::<Seq<char>>::empty(),
    {
        Registry::new()
    }
}

} // verus!

verus! {

// ── Laws ───────────────────────────────────────────────────────────

/// A file is found exactly when the registry holds its domain and the
/// domain holds a file of that name, and then its bytes are the stored
/// ones; in particular nothing is found in an empty registry.
pub proof fn law_file_found_iff_held(
    reg: Map<Seq<char>, Map<Seq<char>, Seq<u8>>>,
    domain: Seq<char>,
    filename: Seq<char>,
)
    ensures
        file_in(reg, domain, filename) is Some <==> (reg.contains_key(domain) && reg[domain].contains_key(
            filename,
        )),
        file_in(reg, domain, filename) is Some ==> file_in(reg, domain, filename) == Some(
            reg[domain][filename],
        ),
        file_in(Map::empty(), domain, filename) is None,
{
}

/// A listing of a domain's files holds one entry per file, no more and no
/// fewer: every file of the domain appears with its bytes, and every entry
/// names a file of the domain with that file's bytes.
pub proof fn law_entries_cover_domain(entries: Seq<RegistryEntry>, files: Map<Seq<char>, Seq<u8>>)
    requires
        lists_files(entries, files),
    ensures
        entries.len() == files.len(),
        forall|i: int|
            0 <= i < entries.len() ==> files.contains_key(#[trigger] entries[i].filename@)
                && files[entries[i].filename@] == entries[i].data@,
        forall|k: Seq<char>|
            #[trigger] files.contains_key(k) ==> exists|i: int|
                0 <= i < entries.len() && entries[i].filename@ == k && entries[i].data@ == files[k],
        forall|i: int, j: int|
            0 <= i < entries.len() && 0 <= j < entries.len() && i != j ==> entries[i].filename@
                != entries[j].filename@,
{
    let names = entries.map_values(|e: RegistryEntry| e.filename@);
    assert forall|i: int| 0 <= i < entries.len() implies files.contains_key(
        #[trigger] entries[i].filename@,
    ) by {
        assert(names[i] == entries[i].filename@);
        assert(names.contains(entries[i].filename@));
    }
    assert forall|k: Seq<char>| #[trigger] files.contains_key(k) implies exists|i: int|
        0 <= i < entries.len() && entries[i].filename@ == k && entries[i].data@ == files[k] by {
        assert(names.contains(k));
        let i = choose|i: int| 0 <= i < names.len() && names[i] == k;
        assert(entries[i].filename@ == k);
    }
    assert forall|i: int, j: int|
        0 <= i < entries.len() && 0 <= j < entries.len() && i != j implies entries[i].filename@
        != entries[j].filename@ by {
        assert(names[i] == entries[i].filename@);
        assert(names[j] == entries[j].filename@);
    }
}

/// Reading a file back after adding it gives the bytes that were added.
pub proof fn law_file_after_add(
    reg: Map<Seq<char>, Map<Seq<char>, Seq<u8>>>,
    domain: Seq<char>,
    filename: Seq<char>,
    data: Seq<u8>,
)
    ensures
        file_in(with_file(reg, domain, filename, data), domain, filename) == Some(data),
{
}

/// Adding a file leaves every other file (another name, or another
/// domain) as it was, present or absent.
pub proof fn law_add_keeps_other_files(
    reg: Map<Seq<char>, Map<Seq<char>, Seq<u8>>>,
    domain: Seq<char>,
    filename: Seq<char>,
    data: Seq<u8>,
    other_domain: Seq<char>,
    other_filename: Seq<char>,
)
    requires
        other_domain != domain || other_filename != filename,
    ensures
        file_in(with_file(reg, domain, filename, data), other_domain, other_filename) == file_in(
            reg,
            other_domain,
            other_filename,
        ),
{
}

/// A registry holds finitely many domains, and each domain finitely many
/// files.
pub proof fn lemma_registry_finite(r: Registry)
    ensures
        r@.dom().finite(),
        forall|d: Seq<char>| #[trigger] r@.contains_key(d) ==> r@[d].dom().finite(),
{
    r.domains.lemma_finite();
    assert(r@.dom() =~= r.domains@.dom());
    assert forall|d: Seq<char>| #[trigger] r@.contains_key(d) implies r@[d].dom().finite() by {
        let files = r.domains@[d];
        files.lemma_finite();
        assert(r@[d].dom() =~= files@.dom());
    }
}

/// After adding a file the domain's file count grows by one exactly when
/// no file of that name was there (a new domain starts from none).
pub proof fn law_file_count_after_add(
    r: Registry,
    domain: Seq<char>,
    filename: Seq<char>,
    data: Seq<u8>,
)
    ensures
        with_file(r@, domain, filename, data)[domain].len() == (if r@.contains_key(domain) {
            r@[domain].len() as int
        } else {
            0int
        }) + if r@.contains_key(domain) && r@[domain].contains_key(filename) {
            0int
        } else {
            1int
        },
{
    lemma_registry_finite(r);
}

/// After adding a file its domain exists, and the registry counts one
/// more domain exactly when the domain was new.
pub proof fn law_domain_count_after_add(
    r: Registry,
    domain: Seq<char>,
    filename: Seq<char>,
    data: Seq<u8>,
)
    ensures
        with_file(r@, domain, filename, data).contains_key(domain),
        with_file(r@, domain, filename, data).len() == r@.len() + if r@.contains_key(domain) {
            0int
        } else {
            1int
        },
{
    r.domains.lemma_finite();
    assert(r@.dom() =~= r.domains@.dom());
}

} // verus!
