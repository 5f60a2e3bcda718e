//! The host-side registry of the services that plugins register, keyed by
//! domain name.

use vstd::prelude::*;

use crate::error::ServiceError;
use crate::strmap::{enumerates_keys, str_views, StrMap};

verus! {

/// The text of the error refused registrations carry.
pub open spec fn already_registered_text(domain: Seq<char>) -> Seq<char> {
    "service domain '"@ + domain + "' is already registered"@
}

/// Registry of all registered services, by domain name.
///
/// `S` is the service handle the host keeps (in the engine, a boxed
/// service object).
pub struct ServiceRegistry<S> {
    services: StrMap<S>,
}

impl<S> ServiceRegistry<S> {
    /// Domain name to service.
    pub closed spec fn registered(self) -> Map<Seq<char>, S> {
        self.services@
    }

    /// The registered domain names, in the order of registration.
    pub closed spec fn domain_order(self) -> Seq<Seq<char>> {
        self.services.key_order()
    }

    /// Create an empty registry.
    pub fn new() -> (r: Self)
        ensures
            r@ == Map::<Seq<char>, S>::empty(),
            r.domain_order() == Seq::<Seq<char>>::empty(),
    {
        ServiceRegistry { services: StrMap::new() }
    }

    /// Register a service under the given domain name.  A domain that is
    /// already taken is refused with an `Internal` error and the registry
    /// is left unchanged.
    pub fn register(&mut self, domain: &str, service: S) -> (r: Result<(), ServiceError>)
        ensures
            old(self)@.contains_key(domain@) ==> final(self)@ == old(self)@
                && final(self).domain_order() == old(self).domain_order() && (r matches Err(
                ServiceError::Internal(msg),
            ) && msg@ == already_registered_text(domain@)),
            !old(self)@.contains_key(domain@) ==> r is Ok && final(self)@ == old(self)@.insert(
                domain@,
                service,
            ) && final(self).domain_order() == old(self).domain_order().push(domain@),
    {
        if self.services.contains_key(domain) {
            let mut msg = String::from_str("service domain '");
            msg.append(domain);
            msg.append("' is already registered");
            return Err(ServiceError::Internal(msg));
        }
        self.services.insert(domain.to_owned(), service);
        Ok(())
    }

    /// The service registered under a domain name.
    pub fn get(&self, domain: &str) -> (r: Result<&S, ServiceError>)
        ensures
            match r {
                Ok(s) => self@.contains_key(domain@) && *s == self@[domain@],
                Err(e) => !self@.contains_key(domain@) && (e matches ServiceError::DomainNotFound(d)
                    && d@ == domain@),
            },
    {
        match self.services.get(domain) {
            Some(s) => Ok(s),
            None => Err(ServiceError::DomainNotFound(domain.to_owned())),
        }
    }

    /// Whether a domain is registered.
    pub fn has(&self, domain: &str) -> (b: bool)
        ensures
            b == self@.contains_key(domain@),
    {
        self.services.contains_key(domain)
    }

    /// Remove the service of a domain and hand it back, if there is one.
    pub fn unregister(&mut self, domain: &str) -> (r: Option<S>)
        ensures
            final(self)@ == old(self)@.remove(domain@),
            final(self).domain_order() == old(self).domain_order().remove_value(domain@),
            r == old(self)@.get(domain@),
    {
        self.services.remove(domain)
    }

    /// Number of registered services.
    pub fn len(&self) -> (n: usize)
        ensures
            n == self@.len(),
    {
        self.services.len()
    }

    /// Whether no service is registered.
    pub fn is_empty(&self) -> (b: bool)
        ensures
            b == (self@.len() == 0),
    {
        self.services.is_empty()
    }

    /// The registered domain names, each once, in the order of
    /// registration.
    pub fn domains(&self) -> (names: Vec<&str>)
        ensures
            str_views(names@) == self.domain_order(),
            enumerates_keys(str_views(names@), self@),
    {
        self.services.keys()
    }
}

impl<S> View for ServiceRegistry<S> {
    type V = Map<Seq<char>, S>;

    open spec fn view(&self) -> Map<Seq<char>, S> {
        self.registered()
    }
}

impl<S> Default for ServiceRegistry<S> {
    fn default() -> (r: Self)
        ensures
            r@ == Map::<Seq<char>, S>::empty(),
            r.domain_order() == Seq::<Seq<char>>::empty(),
    {
        ServiceRegistry::new()
    }
}

} // verus!

verus! {

// ── Laws ───────────────────────────────────────────────────────────

/// A service registered under a free domain is what a lookup of that
/// domain then finds.
pub proof fn law_register_then_get<S>(before: Map<Seq<char>, S>, domain: Seq<char>, service: S)
    requires
        !before.contains_key(domain),
    ensures
        before.insert(domain, service).contains_key(domain),
        before.insert(domain, service)[domain] == service,
{
}

/// Unregistering a domain that was just registered hands the service back
/// and restores the registry as it was before.
pub proof fn law_unregister_undoes_register<S>(
    before: Map<Seq<char>, S>,
    domain: Seq<char>,
    service: S,
)
    requires
        !before.contains_key(domain),
    ensures
        before.insert(domain, service).get(domain) == Some(service),
        before.insert(domain, service).remove(domain) == before,
{
    assert(before.insert(domain, service).remove(domain) =~= before);
}

/// A successful registration makes the registry count one more service.
pub proof fn law_register_counts_one_more<S>(r: ServiceRegistry<S>, domain: Seq<char>, service: S)
    requires
        !r@.contains_key(domain),
    ensures
        r@.insert(domain, service).len() == r@.len() + 1,
{
    r.services.lemma_finite();
}

} // verus!
