//! Attribution of a mod: title, owner and license, as the mod portal gives
//! them, and whether the license lets the explorer show the mod's files.

use vstd::prelude::*;
use crate::text::{concat2, opt_view};
use crate::text_map::TextMap;

verus! {

/// A license as shown with a mod.
pub struct LicenseInfo {
    pub title: String,
    pub url: String,
    pub access_allowed: bool,
}

/// What is known of a mod for its attribution.
pub struct AttributionDataInternal {
    pub title: String,
    pub owner: String,
    pub license: LicenseInfo,
    pub source_url: Option<String>,
}

/// The kind of license the portal lists for a mod: one of the portal's
/// named licenses, or a custom ("other") license.
#[derive(Clone, Copy, Debug, PartialEq, Eq, Structural)]
pub enum PortalLicense {
    Listed,
    Other,
}

/// What the mod portal's full mod info gives that the attribution uses.
pub struct PortalModInfo {
    pub title: String,
    pub owner: String,
    pub license_title: String,
    pub license_url: String,
    pub license: PortalLicense,
    pub source_url: Option<String>,
}

impl LicenseInfo {
    /// A copy with the same contents.
    pub fn duplicate(&self) -> (r: LicenseInfo)
        ensures
            r == *self,
    {
        LicenseInfo {
            title: self.title.clone(),
            url: self.url.clone(),
            access_allowed: self.access_allowed,
        }
    }
}

impl AttributionDataInternal {
    /// A copy with the same contents.
    pub fn duplicate(&self) -> (r: AttributionDataInternal)
        ensures
            r == *self,
    {
        AttributionDataInternal {
            title: self.title.clone(),
            owner: self.owner.clone(),
            license: self.license.duplicate(),
            source_url: match &self.source_url {
                Some(u) => Some(u.clone()),
                None => None,
            },
        }
    }

    /// The attribution of a mod from the portal's info: a custom license
    /// does not allow exploring the mod.
    pub fn from_portal(info: PortalModInfo) -> (r: AttributionDataInternal)
        ensures
            r.title@ == info.title@,
            r.owner@ == info.owner@,
            r.license.title@ == info.license_title@,
            r.license.url@ == info.license_url@,
            r.license.access_allowed == (info.license != PortalLicense::Other),
            opt_view(r.source_url) == opt_view(info.source_url),
    {
        let access_allowed = match info.license {
            PortalLicense::Other => false,
            PortalLicense::Listed => true,
        };
        AttributionDataInternal {
            title: info.title,
            owner: info.owner,
            license: LicenseInfo { title: info.license_title, url: info.license_url, access_allowed },
            source_url: info.source_url,
        }
    }
}

/// The attributions fetched so far, by mod name.
pub struct AttributionStore {
    cache: TextMap<AttributionDataInternal>,
}

impl View for AttributionStore {
    type V = Map<Seq<char>, AttributionDataInternal>;

    closed spec fn view(&self) -> Map<Seq<char>, AttributionDataInternal> {
        self.cache@
    }
}

impl AttributionStore {
    /// Nothing fetched yet.
    pub fn new() -> (r: AttributionStore)
        ensures
            r@ == Map::<Seq<char>, AttributionDataInternal>::empty(),
    {
        AttributionStore { cache: TextMap::new() }
    }

    /// The cached attribution of mod `name`.
    pub fn get(&self, name: &str) -> (r: Option<AttributionDataInternal>)
        ensures
            match r {
                Some(d) => self@.contains_key(name@) && d == self@[name@],
                None => !self@.contains_key(name@),
            },
    {
        match self.cache.get(name) {
            Some(d) => Some(d.duplicate()),
            None => None,
        }
    }

    /// The lookup of mod `name` once the portal was asked for it, with
    /// `fetched` what it gave: an attribution already cached is answered
    /// and kept as it is, whatever was fetched; otherwise a fetched one is
    /// cached and answered, and a failed fetch answers `None` and caches
    /// nothing.
    pub fn get_or_store(&mut self, name: String, fetched: Option<AttributionDataInternal>) -> (r:
        Option<AttributionDataInternal>)
        ensures
            final(self)@ == store_step(old(self)@, name@, fetched),
            r == lookup_answer(old(self)@, name@, fetched),
    {
        if let Some(cached) = self.cache.get(name.as_str()) {
            return Some(cached.duplicate());
        }
        match fetched {
            Some(data) => {
                let copy = data.duplicate();
                self.cache.insert(name, data);
                Some(copy)
            },
            None => None,
        }
    }
}

/// The store after a lookup of `name` that brought `fetched` back from the
/// portal: an entry already there is never replaced, and a failed fetch
/// caches nothing.
pub open spec fn store_step(
    m: Map<Seq<char>, AttributionDataInternal>,
    name: Seq<char>,
    fetched: Option<AttributionDataInternal>,
) -> Map<Seq<char>, AttributionDataInternal> {
    if m.contains_key(name) {
        m
    } else {
        match fetched {
            Some(d) => m.insert(name, d),
            None => m,
        }
    }
}

/// What a lookup of `name` answers: the cached attribution, else what was
/// fetched.
pub open spec fn lookup_answer(
    m: Map<Seq<char>, AttributionDataInternal>,
    name: Seq<char>,
    fetched: Option<AttributionDataInternal>,
) -> Option<AttributionDataInternal> {
    if m.contains_key(name) {
        Some(m[name])
    } else {
        fetched
    }
}

/// Once a lookup of a mod has answered an attribution, every later lookup
/// of that mod answers the same, whatever the portal would give then, and
/// leaves the store unchanged.
pub proof fn lemma_cache_answer_stays(
    m: Map<Seq<char>, AttributionDataInternal>,
    name: Seq<char>,
    fetched: Option<AttributionDataInternal>,
    later: Option<AttributionDataInternal>,
)
    requires
        lookup_answer(m, name, fetched) is Some,
    ensures
        lookup_answer(store_step(m, name, fetched), name, later) == lookup_answer(m, name, fetched),
        store_step(store_step(m, name, fetched), name, later) == store_step(m, name, fetched),
{
}

/// A lookup never changes or drops an attribution already cached, under
/// any mod's name.
pub proof fn lemma_cached_entries_stay(
    m: Map<Seq<char>, AttributionDataInternal>,
    name: Seq<char>,
    fetched: Option<AttributionDataInternal>,
    other: Seq<char>,
)
    requires
        m.contains_key(other),
    ensures
        store_step(m, name, fetched).contains_key(other),
        store_step(m, name, fetched)[other] == m[other],
{
}

/// A lookup caches nothing under another mod's name.
pub proof fn lemma_lookup_touches_only_its_name(
    m: Map<Seq<char>, AttributionDataInternal>,
    name: Seq<char>,
    fetched: Option<AttributionDataInternal>,
    other: Seq<char>,
)
    requires
        other != name,
    ensures
        store_step(m, name, fetched).contains_key(other) == m.contains_key(other),
{
}

/// Whether a mod's files may be explored: only with its attribution known
/// and its license allowing it.
pub fn can_access(data: &Option<AttributionDataInternal>) -> (r: bool)
    ensures
        r == (data matches Some(d) && d.license.access_allowed),
{
    match data {
        Some(d) => d.license.access_allowed,
        None => false,
    }
}

/// The attribution as the pages show it.
pub struct AttributionData {
    pub title: String,
    pub owner: String,
    pub license_name: String,
    pub license_url: String,
}

impl AttributionData {
    /// The shown attribution of a mod.
    pub fn from_internal(info: AttributionDataInternal) -> (r: AttributionData)
        ensures
            r.title@ == info.title@,
            r.owner@ == info.owner@,
            r.license_name@ == info.license.title@,
            r.license_url@ == info.license.url@,
    {
        AttributionData {
            title: info.title,
            owner: info.owner,
            license_name: info.license.title,
            license_url: info.license.url,
        }
    }
}

/// The answer to an attribution request for a mod whose info could not be had.
pub fn attribution_unavailable() -> (r: String)
    ensures
        r@ == "Failed to fetch attribution data"@,
{
    String::from_str("Failed to fetch attribution data")
}

/// The mod portal's address.
pub open spec fn portal_url() -> Seq<char> {
    "https://mods.factorio.com"@
}

/// A link into the mod portal.
pub fn portal_link(path: &str) -> (r: String)
    ensures
        r@ == portal_url() + path@,
{
    concat2("https://mods.factorio.com", path)
}

/// The portal path of a mod's page.
pub fn mod_page_path(name: &str) -> (r: String)
    ensures
        r@ == "/mod/"@ + name@,
{
    concat2("/mod/", name)
}

/// The portal path of a user's page.
pub fn user_page_path(owner: &str) -> (r: String)
    ensures
        r@ == "/user/"@ + owner@,
{
    concat2("/user/", owner)
}

} // verus!
