//! Resource discovery: descriptors of resource types, and the catalog that
//! resolves user-typed aliases to them.
use vstd::hash_map::StringHashMap;
use vstd::prelude::*;

verus! {

/// http's request type: built by the request builder and handed, unread,
/// to the caller.
#[verifier::external_type_specification]
#[verifier::external_body]
#[verifier::reject_recursive_types(T)]
pub struct ExRequest<T>(http::Request<T>);

/// http's error of the request builder; only told apart from success.
#[verifier::external_type_specification]
#[verifier::external_body]
pub struct ExHttpError(http::Error);

/// kube's error for a malformed group-version string; only told apart from
/// success.
#[verifier::external_type_specification]
#[verifier::external_body]
pub struct ExParseGroupVersionError(kube::core::gvk::ParseGroupVersionError);

/// Position of the first `/` in `s`, if any.
pub open spec fn slash_index(s: Seq<char>) -> Option<int>
    decreases s.len(),
{
    if s.len() == 0 {
        None
    } else if s[0] == '/' {
        Some(0)
    } else {
        match slash_index(s.skip(1)) {
            Some(i) => Some(i + 1),
            None => None,
        }
    }
}

/// Group and version of a `group/version` string: split at the first `/`;
/// without a `/` the whole string is the version of the core group.
pub open spec fn split_group_version(s: Seq<char>) -> (Seq<char>, Seq<char>) {
    match slash_index(s) {
        Some(i) => (s.take(i), s.skip(i + 1)),
        None => (Seq::empty(), s),
    }
}

/// Relies on kube's `GroupVersion::from_str`, which splits its argument once
/// at the first `/` (`splitn(2, '/')`) and so never fails.
#[verifier::external_body]
fn parse_group_version(gv: &str) -> (r: Result<(String, String), kube::core::gvk::ParseGroupVersionError>)
    ensures
        r is Ok,
        r matches Ok(p) ==> p.0@ == split_group_version(gv@).0,
        r matches Ok(p) ==> p.1@ == split_group_version(gv@).1,
{
    gv.parse::<kube::core::GroupVersion>().map(|g| (g.group, g.version))
}

/// Relies on kube's `GroupVersion::gv`, which stores the two strings as they
/// are, and `GroupVersion::api_version`: the version alone for the core
/// group (empty group name), `group/version` otherwise.
#[verifier::external_body]
fn api_version_of(group: &str, version: &str) -> (r: String)
    ensures
        r@ == api_version_spec(group@, version@),
{
    kube::core::GroupVersion::gv(group, version).api_version()
}

/// Deep view of a vector of strings.
pub open spec fn strings_view(v: Seq<String>) -> Seq<Seq<char>> {
    v.map_values(|s: String| s@)
}

/// Deep view of an optional vector of strings.
pub open spec fn opt_strings_view(v: Option<Vec<String>>) -> Option<Seq<Seq<char>>> {
    match v {
        Some(names) => Some(strings_view(names@)),
        None => None,
    }
}

/// The identity of one resource type as served by the cluster API.
#[derive(Debug, Clone)]
pub struct DiscoveredAPIResource {
    /// Resource group, empty for the core group.
    pub group: String,
    /// Group version.
    pub version: String,
    /// `version` for the core group, `group/version` for the others.
    pub api_version: String,
    /// Singular PascalCase name of the resource.
    pub kind: String,
    /// Plural name of the resource.
    pub plural: String,
    /// Singular name of the resource.
    pub singular: String,
    /// Short names of the resource.
    pub short_names: Option<Vec<String>>,
    /// Verbs that can be applied to the resource.
    pub verbs: Vec<String>,
    /// Whether the resource lives in a namespace.
    pub namespaced: bool,
}

/// Mathematical model of a [`DiscoveredAPIResource`].
pub struct DescriptorView {
    pub group: Seq<char>,
    pub version: Seq<char>,
    pub api_version: Seq<char>,
    pub kind: Seq<char>,
    pub plural: Seq<char>,
    pub singular: Seq<char>,
    pub short_names: Option<Seq<Seq<char>>>,
    pub verbs: Seq<Seq<char>>,
    pub namespaced: bool,
}

impl View for DiscoveredAPIResource {
    type V = DescriptorView;

    open spec fn view(&self) -> DescriptorView {
        DescriptorView {
            group: self.group@,
            version: self.version@,
            api_version: self.api_version@,
            kind: self.kind@,
            plural: self.plural@,
            singular: self.singular@,
            short_names: opt_strings_view(self.short_names),
            verbs: strings_view(self.verbs@),
            namespaced: self.namespaced,
        }
    }
}

/// `v` for the core group (empty group name), `g/v` otherwise.
pub open spec fn api_version_spec(group: Seq<char>, version: Seq<char>) -> Seq<char> {
    if group.len() == 0 {
        version
    } else {
        group + seq!['/'] + version
    }
}

/// Leading part of a list URL: `/api/{apiVersion}/` for the core group,
/// `/apis/{apiVersion}/` for the others.
pub open spec fn url_prefix(group: Seq<char>, api_version: Seq<char>) -> Seq<char> {
    (if group.len() == 0 {
        seq!['/', 'a', 'p', 'i', '/']
    } else {
        seq!['/', 'a', 'p', 'i', 's', '/']
    }) + api_version + seq!['/']
}

/// The segment `namespaces/{ns}/`.
pub open spec fn namespace_segment(ns: Seq<char>) -> Seq<char> {
    seq!['n', 'a', 'm', 'e', 's', 'p', 'a', 'c', 'e', 's', '/'] + ns + seq!['/']
}

/// The list URL path of a resource type, optionally restricted to a namespace.
pub open spec fn url_path_spec(d: DescriptorView, namespace: Option<Seq<char>>) -> Seq<char> {
    match namespace {
        Some(ns) => url_prefix(d.group, d.api_version) + namespace_segment(ns) + d.plural,
        None => url_prefix(d.group, d.api_version) + d.plural,
    }
}

impl DescriptorView {
    /// The stored `api_version` agrees with `group` and `version`.
    pub open spec fn wf(self) -> bool {
        self.api_version == api_version_spec(self.group, self.version)
    }
}

/// The `Accept` header value that asks the server for its tabular
/// representation (kind `Table` of group `meta.k8s.io`, version `v1`).
pub const TABLE_ACCEPT: &'static str = "application/json;as=Table;g=meta.k8s.io;v=v1";

/// Whether http's request builder accepts a request to `uri` carrying the
/// header `header: value`; this depends on the three strings alone.
pub uninterp spec fn request_accepted(uri: Seq<char>, header: Seq<char>, value: Seq<char>) -> bool;

/// Relies on http's `Request::builder` with `uri`, `header` and `body`: a GET
/// request to `uri` carrying one header and an empty body, or the builder's
/// error when `uri` is not a valid URI or the header is not valid. Whether it
/// fails depends on the three strings alone.
#[verifier::external_body]
fn get_request(uri: String, header: &str, value: &str) -> (r: Result<
    http::Request<Vec<u8>>,
    http::Error,
>)
    ensures
        r is Ok <==> request_accepted(uri@, header@, value@),
{
    http::Request::builder().uri(uri).header(header, value).body(Vec::new())
}

/// Why a request could not be built.
#[derive(Debug, Clone, Copy, PartialEq, Eq, Structural)]
pub enum RequestError {
    /// The path or a header was rejected by the request builder.
    InvalidRequest,
}

impl DiscoveredAPIResource {
    /// Path of the list endpoint of this resource type, restricted to
    /// `namespace` when one is given.
    pub fn url_path(&self, namespace: Option<&str>) -> (r: String)
        ensures
            r@ == url_path_spec(
                self@,
                match namespace {
                    Some(ns) => Some(ns@),
                    None => None,
                },
            ),
    {
        let mut path = if self.group.as_str().is_empty() {
            String::from_str("/api/")
        } else {
            String::from_str("/apis/")
        };
        path.append(self.api_version.as_str());
        path.append("/");
        if let Some(ns) = namespace {
            path.append("namespaces/");
            path.append(ns);
            path.append("/");
        }
        path.append(self.plural.as_str());
        proof {
            reveal_strlit("/api/");
            reveal_strlit("/apis/");
            reveal_strlit("/");
            reveal_strlit("namespaces/");
        }
        assert(path@ =~= url_path_spec(
            self@,
            match namespace {
                Some(ns) => Some(ns@),
                None => None,
            },
        ));
        path
    }

    /// A request for the tabular representation of the objects of this
    /// resource type, in `namespace` when one is given: a GET of
    /// [`Self::url_path`] carrying the `Accept` header [`TABLE_ACCEPT`].
    /// It fails only when the request builder rejects the path (for example
    /// a namespace with spaces in it).
    pub fn table_request(&self, namespace: Option<&str>) -> (r: Result<
        http::Request<Vec<u8>>,
        RequestError,
    >)
        ensures
            r is Ok <==> request_accepted(
                url_path_spec(
                    self@,
                    match namespace {
                        Some(ns) => Some(ns@),
                        None => None,
                    },
                ),
                "Accept"@,
                TABLE_ACCEPT@,
            ),
            r is Err ==> r == Err::<http::Request<Vec<u8>>, RequestError>(
                RequestError::InvalidRequest,
            ),
    {
        let path = self.url_path(namespace);
        match get_request(path, "Accept", TABLE_ACCEPT) {
            Ok(req) => Ok(req),
            Err(_) => Err(RequestError::InvalidRequest),
        }
    }
}

} // verus!

verus! {

/// Why building the catalog failed.
#[derive(Debug, Clone, PartialEq, Eq)]
pub enum DiscoveryError {
    /// An API group declared no version at all.
    AmbiguousGroupVersion,
    /// A group-version string could not be parsed.
    InvalidGroupVersion(String),
}

/// One resource entry of a group-version listing, as the cluster API
/// reports it.
#[derive(Debug, Clone)]
pub struct ApiResourceEntry {
    /// Plural name of the resource.
    pub name: String,
    /// Singular name of the resource.
    pub singular_name: String,
    /// Kind of the resource.
    pub kind: String,
    /// Group of the resource, when it differs from the listing's.
    pub group: Option<String>,
    /// Version of the resource, when it differs from the listing's.
    pub version: Option<String>,
    /// Short names of the resource.
    pub short_names: Option<Vec<String>>,
    /// Supported verbs.
    pub verbs: Vec<String>,
    /// Whether the resource lives in a namespace.
    pub namespaced: bool,
}

/// Mathematical model of an [`ApiResourceEntry`].
pub struct EntryView {
    pub name: Seq<char>,
    pub singular_name: Seq<char>,
    pub kind: Seq<char>,
    pub group: Option<Seq<char>>,
    pub version: Option<Seq<char>>,
    pub short_names: Option<Seq<Seq<char>>>,
    pub verbs: Seq<Seq<char>>,
    pub namespaced: bool,
}

/// Deep view of an optional string.
pub open spec fn opt_string_view(s: Option<String>) -> Option<Seq<char>> {
    match s {
        Some(v) => Some(v@),
        None => None,
    }
}

impl View for ApiResourceEntry {
    type V = EntryView;

    open spec fn view(&self) -> EntryView {
        EntryView {
            name: self.name@,
            singular_name: self.singular_name@,
            kind: self.kind@,
            group: opt_string_view(self.group),
            version: opt_string_view(self.version),
            short_names: opt_strings_view(self.short_names),
            verbs: strings_view(self.verbs@),
            namespaced: self.namespaced,
        }
    }
}

/// The descriptor that an entry of the listing of group-version `gv`
/// stands for.
pub open spec fn descriptor_of(e: EntryView, gv: Seq<char>) -> DescriptorView {
    let group = match e.group {
        Some(g) => g,
        None => split_group_version(gv).0,
    };
    let version = match e.version {
        Some(v) => v,
        None => split_group_version(gv).1,
    };
    DescriptorView {
        group,
        version,
        api_version: api_version_spec(group, version),
        kind: e.kind,
        plural: e.name,
        singular: e.singular_name,
        short_names: e.short_names,
        verbs: e.verbs,
        namespaced: e.namespaced,
    }
}

fn clone_string(s: &String) -> (r: String)
    ensures
        r@ == s@,
{
    s.clone()
}

fn clone_strings(v: &Vec<String>) -> (r: Vec<String>)
    ensures
        strings_view(r@) == strings_view(v@),
{
    let mut r: Vec<String> = Vec::new();
    let mut i: usize = 0;
    while i < v.len()
        invariant
            i <= v.len(),
            r@.len() == i,
            forall|j: int| 0 <= j < i ==> r@[j]@ == v@[j]@,
        decreases v.len() - i,
    {
        r.push(clone_string(&v[i]));
        i += 1;
    }
    assert(strings_view(r@) =~= strings_view(v@));
    r
}

fn clone_opt_strings(v: &Option<Vec<String>>) -> (r: Option<Vec<String>>)
    ensures
        opt_strings_view(r) == opt_strings_view(*v),
{
    match v {
        Some(names) => Some(clone_strings(names)),
        None => None,
    }
}

impl DiscoveredAPIResource {
    /// The descriptor for `entry`, listed under group-version `group_version`.
    /// The entry's own group and version, where it has them, take precedence
    /// over those of the listing.
    pub fn parse_api_resource(entry: &ApiResourceEntry, group_version: &str) -> (r: Result<
        Self,
        DiscoveryError,
    >)
        ensures
            r matches Ok(d) && d@ == descriptor_of(entry@, group_version@),
    {
        let (gv_group, gv_version) = match parse_group_version(group_version) {
            Ok(p) => p,
            Err(_) => {
                return Err(DiscoveryError::InvalidGroupVersion(String::from_str(group_version)));
            },
        };
        let group = match &entry.group {
            Some(g) => clone_string(g),
            None => gv_group,
        };
        let version = match &entry.version {
            Some(v) => clone_string(v),
            None => gv_version,
        };
        let api_version = api_version_of(group.as_str(), version.as_str());
        Ok(DiscoveredAPIResource {
            group,
            version,
            api_version,
            kind: clone_string(&entry.kind),
            plural: clone_string(&entry.name),
            singular: clone_string(&entry.singular_name),
            short_names: clone_opt_strings(&entry.short_names),
            verbs: clone_strings(&entry.verbs),
            namespaced: entry.namespaced,
        })
    }
}

/// The version of an API group to list: the preferred one when declared,
/// else the first declared one.
pub open spec fn selected_version(preferred: Option<Seq<char>>, versions: Seq<Seq<char>>) -> Option<
    Seq<char>,
> {
    match preferred {
        Some(p) => Some(p),
        None => if versions.len() > 0 {
            Some(versions[0])
        } else {
            None
        },
    }
}

/// Picks the group-version of an API group to list: the preferred one, else
/// the first declared one; a group with neither is an error.
pub fn select_group_version(preferred: &Option<String>, versions: &Vec<String>) -> (r: Result<
    String,
    DiscoveryError,
>)
    ensures
        match selected_version(opt_string_view(*preferred), strings_view(versions@)) {
            Some(v) => r matches Ok(s) && s@ == v,
            None => r == Err::<String, DiscoveryError>(DiscoveryError::AmbiguousGroupVersion),
        },
{
    match preferred {
        Some(p) => Ok(clone_string(p)),
        None => if versions.len() > 0 {
            Ok(clone_string(&versions[0]))
        } else {
            Err(DiscoveryError::AmbiguousGroupVersion)
        },
    }
}

} // verus!

verus! {

/// The resources listed under one group-version.
#[derive(Debug, Clone)]
pub struct GroupResources {
    /// The listed group-version, `group/version` or a bare core version.
    pub group_version: String,
    /// The entries of the listing, in the order the API gave them.
    pub resources: Vec<ApiResourceEntry>,
}

/// Mathematical model of a [`GroupResources`].
pub struct GroupResourcesView {
    pub group_version: Seq<char>,
    pub resources: Seq<EntryView>,
}

impl View for GroupResources {
    type V = GroupResourcesView;

    open spec fn view(&self) -> GroupResourcesView {
        GroupResourcesView {
            group_version: self.group_version@,
            resources: self.resources@.map_values(|e: ApiResourceEntry| e@),
        }
    }
}

/// Deep view of a sequence of listings.
pub open spec fn listings_view(v: Seq<GroupResources>) -> Seq<GroupResourcesView> {
    v.map_values(|g: GroupResources| g@)
}

/// The verb that makes a resource browsable.
pub open spec fn list_verb() -> Seq<char> {
    seq!['l', 'i', 's', 't']
}

/// Whether an entry can be listed, and so belongs in the catalog.
pub open spec fn listable(e: EntryView) -> bool {
    e.verbs.contains(list_verb())
}

/// Descriptors of the listable entries of one listing, in order.
pub open spec fn listed_in(entries: Seq<EntryView>, gv: Seq<char>) -> Seq<DescriptorView>
    decreases entries.len(),
{
    if entries.len() == 0 {
        Seq::empty()
    } else {
        let prev = listed_in(entries.drop_last(), gv);
        if listable(entries.last()) {
            prev.push(descriptor_of(entries.last(), gv))
        } else {
            prev
        }
    }
}

/// Descriptors of the listable entries of a sequence of listings, in order.
pub open spec fn listed(lists: Seq<GroupResourcesView>) -> Seq<DescriptorView>
    decreases lists.len(),
{
    if lists.len() == 0 {
        Seq::empty()
    } else {
        listed(lists.drop_last()) + listed_in(lists.last().resources, lists.last().group_version)
    }
}

/// The aliases a descriptor is known by, in insertion order: its singular
/// and plural names when not empty, then its short names.
pub open spec fn aliases_of(d: DescriptorView) -> Seq<Seq<char>> {
    (if d.singular.len() > 0 {
        seq![d.singular]
    } else {
        Seq::empty()
    }) + (if d.plural.len() > 0 {
        seq![d.plural]
    } else {
        Seq::empty()
    }) + match d.short_names {
        Some(n) => n,
        None => Seq::empty(),
    }
}

/// `m` with each of `keys`, in order, mapped to `d`.
pub open spec fn insert_aliases(
    m: Map<Seq<char>, DescriptorView>,
    keys: Seq<Seq<char>>,
    d: DescriptorView,
) -> Map<Seq<char>, DescriptorView>
    decreases keys.len(),
{
    if keys.len() == 0 {
        m
    } else {
        insert_aliases(m, keys.drop_last(), d).insert(keys.last(), d)
    }
}

/// `m` with the aliases of each of `ds` inserted, in order, so that a later
/// descriptor wins an alias over an earlier one.
pub open spec fn index_from(m: Map<Seq<char>, DescriptorView>, ds: Seq<DescriptorView>) -> Map<
    Seq<char>,
    DescriptorView,
>
    decreases ds.len(),
{
    if ds.len() == 0 {
        m
    } else {
        insert_aliases(index_from(m, ds.drop_last()), aliases_of(ds.last()), ds.last())
    }
}

/// The alias index of a sequence of descriptors.
pub open spec fn index_of(ds: Seq<DescriptorView>) -> Map<Seq<char>, DescriptorView> {
    index_from(Map::empty(), ds)
}

/// The catalog built from the listings of the non-core groups and then those
/// of the core group.
pub open spec fn catalog_of(groups: Seq<GroupResourcesView>, core: Seq<GroupResourcesView>) -> Map<
    Seq<char>,
    DescriptorView,
> {
    index_of(listed(groups) + listed(core))
}

/// The resolver from aliases to resource descriptors.
pub struct Discovery {
    resources: Vec<DiscoveredAPIResource>,
    name_to_resource: StringHashMap<usize>,
    names: Vec<String>,
}

impl Discovery {
    /// Every alias points to a stored descriptor, every stored descriptor is
    /// consistent, and `names` lists exactly the aliases.
    pub closed spec fn wf(&self) -> bool {
        &&& forall|k: Seq<char>| #[trigger]
            self.name_to_resource@.contains_key(k) ==> self.name_to_resource@[k]
                < self.resources@.len()
        &&& forall|i: int| 0 <= i < self.resources@.len() ==> (#[trigger] self.resources@[i])@.wf()
        &&& forall|k: Seq<char>| #[trigger]
            self.name_to_resource@.contains_key(k) <==> exists|i: int|
                0 <= i < self.names@.len() && (#[trigger] self.names@[i])@ == k
        &&& forall|i: int, j: int|
            0 <= i < j < self.names@.len() ==> (#[trigger] self.names@[i])@ != (#[trigger] self.names@[j])@
    }

    /// The alias map.
    pub closed spec fn view(&self) -> Map<Seq<char>, DescriptorView> {
        Map::new(
            |k: Seq<char>| self.name_to_resource@.contains_key(k),
            |k: Seq<char>| self.resources@[self.name_to_resource@[k] as int]@,
        )
    }

    /// A catalog without any alias.
    pub fn new() -> (r: Self)
        ensures
            r.wf(),
            r@ == Map::<Seq<char>, DescriptorView>::empty(),
    {
        let r = Discovery {
            resources: Vec::new(),
            name_to_resource: StringHashMap::new(),
            names: Vec::new(),
        };
        assert(r@ =~= Map::<Seq<char>, DescriptorView>::empty());
        r
    }

    /// The descriptor known by `name`, if any.
    pub fn get(&self, name: &str) -> (r: Option<&DiscoveredAPIResource>)
        requires
            self.wf(),
        ensures
            match r {
                Some(d) => self@.contains_key(name@) && d@ == self@[name@],
                None => !self@.contains_key(name@),
            },
    {
        match self.name_to_resource.get(name) {
            Some(i) => Some(&self.resources[*i]),
            None => None,
        }
    }

    /// Maps each of `keys[from..]`, in order, to the descriptor stored at `at`.
    fn insert_aliases_at(&mut self, keys: &Vec<String>, at: usize)
        requires
            old(self).wf(),
            at < old(self).resources@.len(),
        ensures
            final(self).wf(),
            final(self).resources@ == old(self).resources@,
            final(self)@ == insert_aliases(
                old(self)@,
                strings_view(keys@),
                old(self).resources@[at as int]@,
            ),
    {
        let ghost d = self.resources@[at as int]@;
        let ghost start = self@;
        let ghost stored = self.resources@;
        let mut j: usize = 0;
        while j < keys.len()
            invariant
                self.wf(),
                self.resources@ == stored,
                at < self.resources@.len(),
                self.resources@[at as int]@ == d,
                j <= keys.len(),
                self@ == insert_aliases(start, strings_view(keys@).take(j as int), d),
            decreases keys.len() - j,
        {
            let key = &keys[j];
            let ghost before = self@;
            let ghost before_names = self.names@;
            if !self.name_to_resource.contains_key(key.as_str()) {
                self.names.push(clone_string(key));
                proof {
                    assert forall|a: int, b: int|
                        0 <= a < b < self.names@.len() implies (#[trigger] self.names@[a])@ != (
                        #[trigger] self.names@[b])@ by {
                        assert(self.names@[a] == before_names[a]);
                        if b < before_names.len() {
                            assert(self.names@[b] == before_names[b]);
                        } else {
                            assert(before_names[a]@ != key@);
                        }
                    }
                }
            }
            self.name_to_resource.insert(clone_string(key), at);
            proof {
                assert forall|k: Seq<char>| #[trigger]
                    self.name_to_resource@.contains_key(k) <==> exists|i: int|
                        0 <= i < self.names@.len() && (#[trigger] self.names@[i])@ == k by {
                    if k == key@ && self.names@.len() > before_names.len() {
                        assert(self.names@[self.names@.len() - 1]@ == k);
                    }
                    if exists|i: int| 0 <= i < self.names@.len() && (#[trigger] self.names@[i])@ == k {
                        let i = choose|i: int| 0 <= i < self.names@.len() && (#[trigger] self.names@[i])@ == k;
                        if i < before_names.len() {
                            assert(before_names[i] == self.names@[i]);
                        }
                    }
                    if exists|i: int| 0 <= i < before_names.len() && (#[trigger] before_names[i])@ == k {
                        let i = choose|i: int| 0 <= i < before_names.len() && (#[trigger] before_names[i])@ == k;
                        assert(self.names@[i] == before_names[i]);
                    }
                }
                let ks = strings_view(keys@).take(j + 1);
                assert(ks.drop_last() =~= strings_view(keys@).take(j as int));
                assert(ks.last() == key@);
                assert(self@ =~= before.insert(key@, d));
            }
            j += 1;
        }
        assert(strings_view(keys@).take(j as int) =~= strings_view(keys@));
    }

    /// Stores `d` and maps each of its aliases to it.
    fn add_resource(&mut self, d: DiscoveredAPIResource)
        requires
            old(self).wf(),
            d@.wf(),
        ensures
            final(self).wf(),
            final(self)@ == insert_aliases(old(self)@, aliases_of(d@), d@),
    {
        let keys = alias_list(&d);
        let ghost dv = d@;
        let ghost before = self@;
        let at = self.resources.len();
        self.resources.push(d);
        assert forall|i: int| 0 <= i < self.resources@.len() implies (
        #[trigger] self.resources@[i])@.wf() by {
            if i < at {
                assert(self.resources@[i] == old(self).resources@[i]);
            }
        }
        assert(self@ =~= before);
        assert(self.names@ == old(self).names@);
        assert(self.name_to_resource@ == old(self).name_to_resource@);
        self.insert_aliases_at(&keys, at);
    }

    /// Adds the listable entries of `list`, in order.
    fn add_listing(&mut self, list: &GroupResources) -> (r: Result<(), DiscoveryError>)
        requires
            old(self).wf(),
        ensures
            final(self).wf(),
            r is Ok,
            final(self)@ == index_from(
                old(self)@,
                listed_in(list@.resources, list@.group_version),
            ),
    {
        let ghost start = self@;
        let ghost entries = list@.resources;
        let ghost gv = list@.group_version;
        let mut i: usize = 0;
        while i < list.resources.len()
            invariant
                self.wf(),
                i <= list.resources.len(),
                entries == list@.resources,
                gv == list@.group_version,
                self@ == index_from(start, listed_in(entries.take(i as int), gv)),
            decreases list.resources.len() - i,
        {
            let entry = &list.resources[i];
            proof {
                assert(entries.take(i + 1).drop_last() =~= entries.take(i as int));
                assert(entries.take(i + 1).last() == entry@);
            }
            if has_list_verb(&entry.verbs) {
                let d = match DiscoveredAPIResource::parse_api_resource(
                    entry,
                    list.group_version.as_str(),
                ) {
                    Ok(d) => d,
                    Err(e) => {
                        return Err(e);
                    },
                };
                let ghost prev = listed_in(entries.take(i as int), gv);
                self.add_resource(d);
                proof {
                    let now = listed_in(entries.take(i + 1), gv);
                    assert(now == prev.push(descriptor_of(entry@, gv)));
                    assert(now.drop_last() =~= prev);
                }
            }
            i += 1;
        }
        assert(entries.take(i as int) =~= entries);
        Ok(())
    }

    /// Adds the listable entries of each of `lists`, in order.
    fn add_listings(&mut self, lists: &Vec<GroupResources>) -> (r: Result<(), DiscoveryError>)
        requires
            old(self).wf(),
        ensures
            final(self).wf(),
            r is Ok,
            final(self)@ == index_from(old(self)@, listed(listings_view(lists@))),
    {
        let ghost start = self@;
        let ghost ls = listings_view(lists@);
        let mut i: usize = 0;
        while i < lists.len()
            invariant
                self.wf(),
                i <= lists.len(),
                ls == listings_view(lists@),
                self@ == index_from(start, listed(ls.take(i as int))),
            decreases lists.len() - i,
        {
            let ghost prev = listed(ls.take(i as int));
            let ghost mid = self@;
            match self.add_listing(&lists[i]) {
                Ok(()) => {},
                Err(e) => {
                    return Err(e);
                },
            }
            proof {
                let chunk = listed_in(lists@[i as int]@.resources, lists@[i as int]@.group_version);
                assert(ls.take(i + 1).drop_last() =~= ls.take(i as int));
                assert(listed(ls.take(i + 1)) == prev + chunk);
                lemma_index_from_concat(start, prev, chunk);
            }
            i += 1;
        }
        assert(ls.take(i as int) =~= ls);
        Ok(())
    }

    /// Builds the catalog from the listings of the non-core API groups, then
    /// those of the core group, so that the core resources win every alias
    /// they share with the others.
    pub fn from_listings(groups: &Vec<GroupResources>, core: &Vec<GroupResources>) -> (r: Result<
        Discovery,
        DiscoveryError,
    >)
        ensures
            r matches Ok(d) && d.wf() && d@ == catalog_of(
                listings_view(groups@),
                listings_view(core@),
            ),
    {
        let mut d = Discovery::new();
        match d.add_listings(groups) {
            Ok(()) => {},
            Err(e) => {
                return Err(e);
            },
        }
        match d.add_listings(core) {
            Ok(()) => {},
            Err(e) => {
                return Err(e);
            },
        }
        proof {
            lemma_index_from_concat(
                Map::empty(),
                listed(listings_view(groups@)),
                listed(listings_view(core@)),
            );
        }
        Ok(d)
    }

    /// Every alias of the catalog, each once.
    pub fn aliases(&self) -> (r: &Vec<String>)
        requires
            self.wf(),
        ensures
            forall|k: Seq<char>|
                self@.contains_key(k) <==> exists|i: int| 0 <= i < r@.len() && (#[trigger] r@[i])@ == k,
            forall|i: int, j: int| 0 <= i < j < r@.len() ==> (#[trigger] r@[i])@ != (#[trigger] r@[j])@,
    {
        &self.names
    }
}

/// Whether `verbs` holds `list`.
fn has_list_verb(verbs: &Vec<String>) -> (r: bool)
    ensures
        r == strings_view(verbs@).contains(list_verb()),
{
    let list = String::from_str("list");
    proof {
        reveal_strlit("list");
        assert(list@ =~= list_verb());
    }
    let mut i: usize = 0;
    while i < verbs.len()
        invariant
            i <= verbs.len(),
            list@ == list_verb(),
            forall|j: int| 0 <= j < i ==> verbs@[j]@ != list_verb(),
        decreases verbs.len() - i,
    {
        if verbs[i] == list {
            assert(strings_view(verbs@)[i as int] == list_verb());
            return true;
        }
        i += 1;
    }
    proof {
        if strings_view(verbs@).contains(list_verb()) {
            let j = choose|j: int|
                0 <= j < strings_view(verbs@).len() && strings_view(verbs@)[j] == list_verb();
            assert(verbs@[j]@ == list_verb());
        }
    }
    false
}

/// The aliases of `d`, in insertion order.
fn alias_list(d: &DiscoveredAPIResource) -> (r: Vec<String>)
    ensures
        strings_view(r@) == aliases_of(d@),
{
    let mut r: Vec<String> = Vec::new();
    if !d.singular.as_str().is_empty() {
        r.push(clone_string(&d.singular));
    }
    if !d.plural.as_str().is_empty() {
        r.push(clone_string(&d.plural));
    }
    let ghost head = strings_view(r@);
    assert(head =~= (if d@.singular.len() > 0 {
        seq![d@.singular]
    } else {
        Seq::<Seq<char>>::empty()
    }) + (if d@.plural.len() > 0 {
        seq![d@.plural]
    } else {
        Seq::<Seq<char>>::empty()
    }));
    if let Some(names) = &d.short_names {
        let n0 = r.len();
        let mut i: usize = 0;
        while i < names.len()
            invariant
                i <= names.len(),
                n0 == head.len(),
                r@.len() == n0 + i,
                strings_view(r@.take(n0 as int)) == head,
                forall|j: int| 0 <= j < i ==> r@[n0 + j]@ == names@[j]@,
            decreases names.len() - i,
        {
            let ghost before = r@;
            r.push(clone_string(&names[i]));
            assert(r@.take(n0 as int) =~= before.take(n0 as int));
            i += 1;
        }
        assert(strings_view(r@) =~= head + strings_view(names@));
    } else {
        assert(strings_view(r@) =~= head);
    }
    r
}

/// Inserting the aliases of `ds` on top of `m` is `m` overridden by the
/// index of `ds` alone.
proof fn lemma_index_from_union(m: Map<Seq<char>, DescriptorView>, ds: Seq<DescriptorView>)
    ensures
        index_from(m, ds) == m.union_prefer_right(index_of(ds)),
    decreases ds.len(),
{
    if ds.len() == 0 {
        assert(m.union_prefer_right(Map::empty()) =~= m);
    } else {
        lemma_index_from_union(m, ds.drop_last());
        lemma_insert_aliases_union(m, index_of(ds.drop_last()), aliases_of(ds.last()), ds.last());
    }
}

/// Inserting aliases commutes with overriding a map.
proof fn lemma_insert_aliases_union(
    m1: Map<Seq<char>, DescriptorView>,
    m2: Map<Seq<char>, DescriptorView>,
    keys: Seq<Seq<char>>,
    d: DescriptorView,
)
    ensures
        insert_aliases(m1.union_prefer_right(m2), keys, d) == m1.union_prefer_right(
            insert_aliases(m2, keys, d),
        ),
    decreases keys.len(),
{
    if keys.len() > 0 {
        lemma_insert_aliases_union(m1, m2, keys.drop_last(), d);
        assert(insert_aliases(m1.union_prefer_right(m2), keys, d) =~= m1.union_prefer_right(
            insert_aliases(m2, keys, d),
        ));
    }
}

/// Indexing `a + b` on top of `m` indexes `a`, then `b`.
proof fn lemma_index_from_concat(
    m: Map<Seq<char>, DescriptorView>,
    a: Seq<DescriptorView>,
    b: Seq<DescriptorView>,
)
    ensures
        index_from(m, a + b) == index_from(index_from(m, a), b),
    decreases b.len(),
{
    if b.len() == 0 {
        assert(a + b =~= a);
    } else {
        lemma_index_from_concat(m, a, b.drop_last());
        assert((a + b).drop_last() =~= a + b.drop_last());
        assert((a + b).last() == b.last());
    }
}

/// Where an alias of `insert_aliases(m, keys, d)` comes from: one of `keys`,
/// mapped to `d`, or else `m`.
proof fn lemma_insert_aliases_source(
    m: Map<Seq<char>, DescriptorView>,
    keys: Seq<Seq<char>>,
    d: DescriptorView,
    k: Seq<char>,
)
    ensures
        keys.contains(k) ==> insert_aliases(m, keys, d).contains_key(k) && insert_aliases(
            m,
            keys,
            d,
        )[k] == d,
        !keys.contains(k) ==> insert_aliases(m, keys, d).contains_key(k) == m.contains_key(k)
            && (m.contains_key(k) ==> insert_aliases(m, keys, d)[k] == m[k]),
    decreases keys.len(),
{
    if keys.len() > 0 {
        lemma_insert_aliases_source(m, keys.drop_last(), d, k);
        if k != keys.last() {
            if keys.contains(k) {
                let i = choose|i: int| 0 <= i < keys.len() && keys[i] == k;
                assert(keys.drop_last()[i] == k);
            }
            if keys.drop_last().contains(k) {
                let i = choose|i: int| 0 <= i < keys.drop_last().len() && keys.drop_last()[i] == k;
                assert(keys[i] == k);
            }
        } else {
            assert(keys[keys.len() - 1] == k);
        }
    }
}

/// Every alias of an index built on top of `m` resolves either as in `m`
/// or to one of `ds` that is known by that alias.
proof fn lemma_index_from_source(
    m: Map<Seq<char>, DescriptorView>,
    ds: Seq<DescriptorView>,
    k: Seq<char>,
)
    requires
        index_from(m, ds).contains_key(k),
    ensures
        (m.contains_key(k) && index_from(m, ds)[k] == m[k]) || exists|i: int|
            0 <= i < ds.len() && ds[i] == index_from(m, ds)[k] && aliases_of(ds[i]).contains(k),
    decreases ds.len(),
{
    if ds.len() > 0 {
        let prev = index_from(m, ds.drop_last());
        lemma_insert_aliases_source(prev, aliases_of(ds.last()), ds.last(), k);
        if !aliases_of(ds.last()).contains(k) {
            lemma_index_from_source(m, ds.drop_last(), k);
            if !(m.contains_key(k) && prev[k] == m[k]) {
                let i = choose|i: int|
                    0 <= i < ds.drop_last().len() && ds.drop_last()[i] == prev[k] && aliases_of(
                        ds.drop_last()[i],
                    ).contains(k);
                assert(ds[i] == ds.drop_last()[i]);
            }
        } else {
            assert(ds[ds.len() - 1] == ds.last());
        }
    }
}

/// Every descriptor of a listing of `entries` can be listed.
proof fn lemma_listed_in_listable(entries: Seq<EntryView>, gv: Seq<char>)
    ensures
        forall|i: int|
            0 <= i < listed_in(entries, gv).len() ==> (#[trigger] listed_in(entries, gv)[i]).verbs.contains(
                list_verb(),
            ),
    decreases entries.len(),
{
    if entries.len() > 0 {
        lemma_listed_in_listable(entries.drop_last(), gv);
    }
}

/// Every descriptor of a sequence of listings can be listed.
proof fn lemma_listed_listable(ls: Seq<GroupResourcesView>)
    ensures
        forall|i: int|
            0 <= i < listed(ls).len() ==> (#[trigger] listed(ls)[i]).verbs.contains(list_verb()),
    decreases ls.len(),
{
    if ls.len() > 0 {
        lemma_listed_listable(ls.drop_last());
        lemma_listed_in_listable(ls.last().resources, ls.last().group_version);
        let a = listed(ls.drop_last());
        let b = listed_in(ls.last().resources, ls.last().group_version);
        assert forall|i: int| 0 <= i < listed(ls).len() implies (#[trigger] listed(
            ls,
        )[i]).verbs.contains(list_verb()) by {
            if i < a.len() {
                assert(listed(ls)[i] == a[i]);
            } else {
                assert(listed(ls)[i] == b[i - a.len()]);
            }
        }
    }
}

/// Core precedence: an alias that some listable resource of the core group
/// is known by resolves to the resource that the core listings alone give
/// it, whatever the listings of the other groups hold and in whatever order
/// they come.
pub proof fn lemma_core_alias_precedence(
    groups: Seq<GroupResourcesView>,
    core: Seq<GroupResourcesView>,
    alias: Seq<char>,
)
    requires
        index_of(listed(core)).contains_key(alias),
    ensures
        catalog_of(groups, core).contains_key(alias),
        catalog_of(groups, core)[alias] == index_of(listed(core))[alias],
        exists|i: int|
            0 <= i < listed(core).len() && listed(core)[i] == catalog_of(groups, core)[alias]
                && aliases_of(listed(core)[i]).contains(alias),
{
    lemma_index_from_concat(Map::empty(), listed(groups), listed(core));
    lemma_index_from_union(index_of(listed(groups)), listed(core));
    lemma_index_from_source(Map::empty(), listed(core), alias);
}

/// Only listable resources are catalogued: whatever alias the catalog
/// resolves, the descriptor it gives supports `list`, and so it is never
/// the descriptor of an entry without that verb.
pub proof fn lemma_catalog_only_listable(
    groups: Seq<GroupResourcesView>,
    core: Seq<GroupResourcesView>,
    alias: Seq<char>,
)
    requires
        catalog_of(groups, core).contains_key(alias),
    ensures
        catalog_of(groups, core)[alias].verbs.contains(list_verb()),
        forall|e: EntryView, gv: Seq<char>|
            !listable(e) ==> catalog_of(groups, core)[alias] != #[trigger] descriptor_of(e, gv),
{
    let ds = listed(groups) + listed(core);
    lemma_index_from_source(Map::empty(), ds, alias);
    lemma_listed_listable(groups);
    lemma_listed_listable(core);
    let i = choose|i: int|
        0 <= i < ds.len() && ds[i] == catalog_of(groups, core)[alias] && aliases_of(ds[i]).contains(
            alias,
        );
    if i < listed(groups).len() {
        assert(ds[i] == listed(groups)[i]);
    } else {
        assert(ds[i] == listed(core)[i - listed(groups).len()]);
    }
}

/// Namespaced paths: the cluster-wide path is the prefix followed directly
/// by the plural name, with no namespace segment; the namespaced path is the
/// same with `namespaces/{ns}/` inserted once, right before the plural name.
pub proof fn lemma_url_path_namespace(d: DescriptorView, ns: Seq<char>)
    ensures
        url_path_spec(d, None) == url_prefix(d.group, d.api_version) + d.plural,
        url_path_spec(d, Some(ns)) == url_path_spec(d, None).take(
            url_prefix(d.group, d.api_version).len() as int,
        ) + namespace_segment(ns) + url_path_spec(d, None).skip(
            url_prefix(d.group, d.api_version).len() as int,
        ),
        url_path_spec(d, None).skip(url_prefix(d.group, d.api_version).len() as int) == d.plural,
        url_path_spec(d, Some(ns)).skip(
            (url_prefix(d.group, d.api_version).len() + namespace_segment(ns).len()) as int,
        ) == d.plural,
{
    let p = url_prefix(d.group, d.api_version);
    let base = url_path_spec(d, None);
    assert(base.take(p.len() as int) =~= p);
    assert(base.skip(p.len() as int) =~= d.plural);
    assert(url_path_spec(d, Some(ns)).skip((p.len() + namespace_segment(ns).len()) as int) =~= d.plural);
}

/// A catalogued descriptor addresses the core group as `/api/{version}/`
/// and the others as `/apis/{group}/{version}/`.
pub proof fn lemma_url_prefix_of_wf(d: DescriptorView)
    requires
        d.wf(),
    ensures
        d.group.len() == 0 ==> url_prefix(d.group, d.api_version) == seq!['/', 'a', 'p', 'i', '/']
            + d.version + seq!['/'],
        d.group.len() > 0 ==> url_prefix(d.group, d.api_version) == seq![
            '/',
            'a',
            'p',
            'i',
            's',
            '/',
        ] + d.group + seq!['/'] + d.version + seq!['/'],
{
    if d.group.len() > 0 {
        assert(url_prefix(d.group, d.api_version) =~= seq!['/', 'a', 'p', 'i', 's', '/'] + d.group
            + seq!['/'] + d.version + seq!['/']);
    }
}

/// kube's own description of a resource type, for its dynamic API; its
/// fields are the same strings as those of a [`DiscoveredAPIResource`].
#[verifier::external_type_specification]
pub struct ExApiResource(kube::core::ApiResource);

/// The same resource type, described for kube's dynamic API.
impl From<&DiscoveredAPIResource> for kube::core::ApiResource {
    fn from(value: &DiscoveredAPIResource) -> (r: kube::core::ApiResource) {
        kube::core::ApiResource {
            group: value.group.clone(),
            version: value.version.clone(),
            api_version: value.api_version.clone(),
            kind: value.kind.clone(),
            plural: value.plural.clone(),
        }
    }
}

impl vstd::std_specs::convert::FromSpecImpl<&DiscoveredAPIResource> for kube::core::ApiResource {
    open spec fn obeys_from_spec() -> bool {
        true
    }

    open spec fn from_spec(v: &DiscoveredAPIResource) -> kube::core::ApiResource {
        kube::core::ApiResource {
            group: v.group,
            version: v.version,
            api_version: v.api_version,
            kind: v.kind,
            plural: v.plural,
        }
    }
}

/// The `/`-separated segments of `s`, in order; a string without `/` is
/// one segment.
pub open spec fn segments(s: Seq<char>) -> Seq<Seq<char>>
    decreases s.len(),
{
    match slash_index(s) {
        Some(i) => if 0 <= i < s.len() {
            seq![s.take(i)] + segments(s.skip(i + 1))
        } else {
            seq![s]
        },
        None => seq![s],
    }
}

/// The text `namespaces`.
pub open spec fn namespaces_word() -> Seq<char> {
    seq!['n', 'a', 'm', 'e', 's', 'p', 'a', 'c', 'e', 's']
}

proof fn lemma_slash_index_range(s: Seq<char>)
    ensures
        slash_index(s) matches Some(i) ==> 0 <= i < s.len() && s[i] == '/',
        slash_index(s) is None <==> !s.contains('/'),
    decreases s.len(),
{
    if s.len() > 0 {
        lemma_slash_index_range(s.skip(1));
        if s[0] != '/' {
            if s.contains('/') {
                let k = choose|k: int| 0 <= k < s.len() && s[k] == '/';
                assert(s.skip(1)[k - 1] == '/');
            }
            if s.skip(1).contains('/') {
                let k = choose|k: int| 0 <= k < s.skip(1).len() && s.skip(1)[k] == '/';
                assert(s[k + 1] == '/');
            }
        } else {
            assert(s[0] == '/');
        }
    }
}

proof fn lemma_slash_index_concat(a: Seq<char>, c: Seq<char>)
    ensures
        slash_index(a + c) == match slash_index(a) {
            Some(i) => Some(i),
            None => match slash_index(c) {
                Some(j) => Some(j + a.len()),
                None => None,
            },
        },
    decreases a.len(),
{
    if a.len() == 0 {
        assert(a + c =~= c);
    } else {
        assert((a + c)[0] == a[0]);
        if a[0] != '/' {
            assert((a + c).skip(1) =~= a.skip(1) + c);
            lemma_slash_index_concat(a.skip(1), c);
        }
    }
}

proof fn lemma_segments_no_slash(s: Seq<char>)
    requires
        !s.contains('/'),
    ensures
        segments(s) == seq![s],
{
    lemma_slash_index_range(s);
}

/// Joining two strings with `/` joins their segments.
proof fn lemma_segments_join(a: Seq<char>, b: Seq<char>)
    ensures
        segments(a + seq!['/'] + b) == segments(a) + segments(b),
    decreases a.len(),
{
    let s = a + seq!['/'] + b;
    assert(s =~= a + (seq!['/'] + b));
    lemma_slash_index_concat(a, seq!['/'] + b);
    lemma_slash_index_range(a);
    lemma_slash_index_range(s);
    match slash_index(a) {
        Some(i) => {
            assert(s.take(i) =~= a.take(i));
            assert(s.skip(i + 1) =~= a.skip(i + 1) + seq!['/'] + b);
            lemma_segments_join(a.skip(i + 1), b);
            assert(segments(s) =~= segments(a) + segments(b));
        },
        None => {
            assert(slash_index(seq!['/'] + b) == Some(0int));
            assert(s.take(a.len() as int) =~= a);
            assert(s.skip((a.len() + 1) as int) =~= b);
            assert(segments(s) =~= segments(a) + segments(b));
        },
    }
}

/// The segments of a list path before the namespace segment and the
/// plural name: the empty one before the leading `/`, `api` or `apis`, and
/// those of the API version.
pub open spec fn url_head_segments(d: DescriptorView) -> Seq<Seq<char>> {
    seq![Seq::empty(), api_word(d.group)] + segments(d.api_version)
}

/// `api` for the core group, `apis` for the others.
pub open spec fn api_word(group: Seq<char>) -> Seq<char> {
    if group.len() == 0 {
        seq!['a', 'p', 'i']
    } else {
        seq!['a', 'p', 'i', 's']
    }
}

proof fn lemma_words_have_no_slash(group: Seq<char>)
    ensures
        !api_word(group).contains('/'),
        !namespaces_word().contains('/'),
        !Seq::<char>::empty().contains('/'),
{
    let a = api_word(group);
    let n = namespaces_word();
    assert(forall|k: int| 0 <= k < a.len() ==> a[k] != '/');
    assert(forall|k: int| 0 <= k < n.len() ==> n[k] != '/');
}

proof fn lemma_segments_cluster_path(d: DescriptorView)
    requires
        !d.plural.contains('/'),
    ensures
        segments(url_path_spec(d, None)) == url_head_segments(d) + seq![d.plural],
{
    let e: Seq<char> = Seq::empty();
    let api = api_word(d.group);
    let av = d.api_version;
    lemma_words_have_no_slash(d.group);
    lemma_segments_no_slash(d.plural);
    lemma_segments_no_slash(e);
    lemma_segments_no_slash(api);
    let rest = av + seq!['/'] + d.plural;
    let tail = api + seq!['/'] + rest;
    assert(url_path_spec(d, None) =~= e + seq!['/'] + tail);
    lemma_segments_join(av, d.plural);
    lemma_segments_join(api, rest);
    lemma_segments_join(e, tail);
    assert(segments(url_path_spec(d, None)) =~= url_head_segments(d) + seq![d.plural]);
}

proof fn lemma_segments_namespaced_path(d: DescriptorView, ns: Seq<char>)
    requires
        !d.plural.contains('/'),
    ensures
        segments(url_path_spec(d, Some(ns))) == url_head_segments(d) + seq![namespaces_word()]
            + segments(ns) + seq![d.plural],
{
    let e: Seq<char> = Seq::empty();
    let api = api_word(d.group);
    let av = d.api_version;
    let nsw = namespaces_word();
    lemma_words_have_no_slash(d.group);
    lemma_segments_no_slash(d.plural);
    lemma_segments_no_slash(e);
    lemma_segments_no_slash(api);
    lemma_segments_no_slash(nsw);
    let inner = ns + seq!['/'] + d.plural;
    let nsrest = nsw + seq!['/'] + inner;
    let rest = av + seq!['/'] + nsrest;
    let tail = api + seq!['/'] + rest;
    assert(url_path_spec(d, Some(ns)) =~= e + seq!['/'] + tail);
    lemma_segments_join(e, tail);
    lemma_segments_join(api, rest);
    lemma_segments_join(av, nsrest);
    lemma_segments_join(nsw, inner);
    lemma_segments_join(ns, d.plural);
    assert(segments(url_path_spec(d, Some(ns))) =~= url_head_segments(d) + seq![nsw] + segments(
        ns,
    ) + seq![d.plural]);
}

proof fn lemma_head_without_namespaces(d: DescriptorView)
    requires
        !segments(d.api_version).contains(namespaces_word()),
    ensures
        !url_head_segments(d).contains(namespaces_word()),
{
    let head = url_head_segments(d);
    if head.contains(namespaces_word()) {
        let i = choose|i: int| 0 <= i < head.len() && head[i] == namespaces_word();
        if i == 0 {
            assert(head[0].len() == 0);
        } else if i == 1 {
            assert(head[1].len() != 10);
        } else {
            assert(segments(d.api_version)[i - 2] == head[i]);
        }
    }
}

/// Namespaced paths, segment by segment: when the API version has no
/// segment `namespaces` and the plural name has no `/`, the cluster-wide
/// path ends with the plural name and has no `namespaces` segment before
/// it; the namespaced path, for a namespace without `/`, is the same with the
/// segments `namespaces` and `{ns}` inserted right before the plural name,
/// so that, unless the namespace is itself named `namespaces`, that segment
/// comes exactly once before the plural name.
pub proof fn lemma_url_path_segments(d: DescriptorView, ns: Seq<char>)
    requires
        !segments(d.api_version).contains(namespaces_word()),
        !d.plural.contains('/'),
    ensures
        segments(url_path_spec(d, None)).last() == d.plural,
        !segments(url_path_spec(d, None)).drop_last().contains(namespaces_word()),
        !ns.contains('/') ==> segments(url_path_spec(d, Some(ns))) == segments(
            url_path_spec(d, None),
        ).drop_last() + seq![namespaces_word(), ns, d.plural],
        !ns.contains('/') && ns != namespaces_word() ==> !segments(url_path_spec(d, Some(ns))).take(
            segments(url_path_spec(d, Some(ns))).len() - 3,
        ).contains(namespaces_word()) && !segments(url_path_spec(d, Some(ns))).subrange(
            segments(url_path_spec(d, Some(ns))).len() - 2,
            segments(url_path_spec(d, Some(ns))).len() - 1,
        ).contains(namespaces_word()),
{
    let head = url_head_segments(d);
    lemma_segments_cluster_path(d);
    lemma_head_without_namespaces(d);
    assert(segments(url_path_spec(d, None)).drop_last() =~= head);
    if !ns.contains('/') {
        lemma_segments_namespaced_path(d, ns);
        lemma_segments_no_slash(ns);
        let segs = segments(url_path_spec(d, Some(ns)));
        assert(segs =~= head + seq![namespaces_word(), ns, d.plural]);
        assert(segs.take(segs.len() - 3) =~= head);
        if ns != namespaces_word() {
            let mid = segs.subrange(segs.len() - 2, segs.len() - 1);
            assert(mid =~= seq![ns]);
            if mid.contains(namespaces_word()) {
                assert(mid[0] == ns);
            }
        }
    }
}

} // verus!
