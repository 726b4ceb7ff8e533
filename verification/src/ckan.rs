//! What a project publishes to its open-data catalogues: one entry per endpoint that declares
//! `spec.publish.ckan`, read from the declaration and from the dataset the publisher renders.

use vstd::prelude::*;
use crate::json::{JsonValue, get, get_text};
use crate::resource::Envelope;
use crate::text::{append_str, chars_of, seq_eq, string_of};

verus! {

/// The CKAN picture of one project.
pub struct CkanStatus {
    /// Every catalogue this project can publish to.
    pub instances: Vec<InstanceSummary>,
    /// One entry per endpoint that declares `spec.publish.ckan`.
    pub publications: Vec<PublicationStatus>,
}

/// One `CkanInstance`, without anything secret about it.
pub struct InstanceSummary {
    /// Manifest name.
    pub name: String,
    /// Base URL of the catalogue.
    pub url: String,
    /// The organization a dataset lands in when the endpoint names none.
    pub organization_default: Option<String>,
    /// The name of the secret holding the API token, never its value.
    pub api_token_ref: String,
}

/// What one endpoint publishes, and where.
pub struct PublicationStatus {
    pub endpoint: String,
    pub phase: Option<String>,
    /// The `CkanInstance` it publishes to.
    pub instance: String,
    /// `true` when that instance is missing from the project, which is why nothing publishes.
    pub instance_missing: bool,
    pub organization: Option<String>,
    /// The CKAN dataset name.
    pub dataset: String,
    /// Where the dataset is in the catalogue, once it is published.
    pub dataset_url: Option<String>,
    /// One resource per enabled representation, plus the schema index.
    pub resources: Vec<ResourceLink>,
    /// The row mirror, when the endpoint asks for one.
    pub datastore: Option<DataStoreStatus>,
}

/// One CKAN resource of a dataset.
pub struct ResourceLink {
    pub name: String,
    pub url: String,
    pub format: String,
}

/// The declared row mirror.
pub struct DataStoreStatus {
    /// The tabular representation the rows are read through.
    pub representation: String,
    /// How the mirror is kept current.
    pub refresh: String,
}

/// The text of a member, or the empty text when there is none.
pub open spec fn text_or_empty(v: JsonValue, key: Seq<char>) -> Seq<char> {
    match get_text(v, key) {
        Some(s) => s,
        None => Seq::empty(),
    }
}

/// A `Ref` is either a bare name or `{ kind, name }`.
pub open spec fn reference_name_of(r: JsonValue) -> Option<Seq<char>> {
    match r {
        JsonValue::Str(s) => Some(s@),
        _ => get_text(r, "name"@),
    }
}

/// `spec.publish.ckan`, when the endpoint declares it.
pub open spec fn declared_of(spec: JsonValue) -> Option<JsonValue> {
    match get(spec, "publish"@) {
        Some(p) => get(p, "ckan"@),
        None => None,
    }
}

/// The name of the instance a declaration publishes to; empty when it names none.
pub open spec fn instance_name_of(declared: JsonValue) -> Seq<char> {
    match get(declared, "instanceRef"@) {
        Some(r) => match reference_name_of(r) {
            Some(n) => n,
            None => Seq::empty(),
        },
        None => Seq::empty(),
    }
}

/// The base URL of the first instance of this name.
pub open spec fn instance_url(instances: Seq<InstanceSummary>, name: Seq<char>) -> Option<Seq<char>>
    decreases instances.len(),
{
    if instances.len() == 0 {
        None
    } else if instances[0].name@ == name {
        Some(instances[0].url@)
    } else {
        instance_url(instances.drop_first(), name)
    }
}

/// A link read from one rendered resource.
pub open spec fn link_matches(l: ResourceLink, v: JsonValue) -> bool {
    &&& l.name@ == text_or_empty(v, "name"@)
    &&& l.url@ == text_or_empty(v, "url"@)
    &&& l.format@ == text_or_empty(v, "format"@)
}

/// The row mirror a declaration asks for: `representation` as written, `refresh` defaulting
/// to `onChange`.
pub open spec fn datastore_matches(d: Option<DataStoreStatus>, declared: JsonValue) -> bool {
    match get(declared, "datastore"@) {
        None => d is None,
        Some(ds) => d matches Some(s) && s.representation@ == text_or_empty(ds, "representation"@)
            && s.refresh@ == match get_text(ds, "refresh"@) {
            Some(r) => r,
            None => "onChange"@,
        },
    }
}

/// The resources listed in a rendered dataset, in order.
pub open spec fn rendered_resources(dataset: JsonValue) -> Seq<JsonValue> {
    match get(dataset, "resources"@) {
        Some(JsonValue::Array(items)) => items@,
        _ => Seq::empty(),
    }
}

/// The text of a member, or the empty string.
pub fn text(value: &JsonValue, key: &str) -> (r: String)
    ensures
        r@ == text_or_empty(*value, key@),
{
    match value.text_at(key) {
        Some(s) => s.clone(),
        None => {
            let e: Vec<char> = Vec::new();
            string_of(e.as_slice())
        },
    }
}

/// A `Ref` is either a bare name or `{ kind, name }`.
pub fn reference_name(reference: &JsonValue) -> (r: Option<&String>)
    ensures
        match r {
            Some(s) => reference_name_of(*reference) == Some(s@),
            None => reference_name_of(*reference) is None,
        },
{
    match reference {
        JsonValue::Str(s) => Some(s),
        _ => reference.text_at("name"),
    }
}

/// One resource link, read from a rendered resource.
pub fn link(resource: &JsonValue) -> (l: ResourceLink)
    ensures
        link_matches(l, *resource),
{
    ResourceLink {
        name: text(resource, "name"),
        url: text(resource, "url"),
        format: text(resource, "format"),
    }
}

/// The row mirror a declaration asks for.
pub fn datastore(declared: &JsonValue) -> (d: Option<DataStoreStatus>)
    ensures
        datastore_matches(d, *declared),
{
    match declared.get_member("datastore") {
        None => None,
        Some(ds) => {
            let refresh = match ds.text_at("refresh") {
                Some(r) => r.clone(),
                None => {
                    proof {
                        reveal_strlit("onChange");
                    }
                    let c = chars_of("onChange");
                    string_of(c.as_slice())
                },
            };
            Some(DataStoreStatus { representation: text(ds, "representation"), refresh })
        },
    }
}

/// The base URL of the first instance of this name.
pub fn find_instance_url<'a>(instances: &'a Vec<InstanceSummary>, name: &String) -> (r: Option<&'a String>)
    ensures
        match r {
            Some(u) => instance_url(instances@, name@) == Some(u@),
            None => instance_url(instances@, name@) is None,
        },
{
    let wanted = chars_of(name.as_str());
    let mut i: usize = 0;
    assert(instances@.subrange(0, instances@.len() as int) =~= instances@);
    while i < instances.len()
        invariant
            i <= instances@.len(),
            wanted@ == name@,
            instance_url(instances@, name@) == instance_url(
                instances@.subrange(i as int, instances@.len() as int),
                name@,
            ),
        decreases instances.len() - i,
    {
        let ghost rest = instances@.subrange(i as int, instances@.len() as int);
        assert(rest.drop_first() =~= instances@.subrange(i + 1, instances@.len() as int));
        let n = chars_of(instances[i].name.as_str());
        if seq_eq(n.as_slice(), wanted.as_slice()) {
            assert(rest[0] == instances@[i as int]);
            return Some(&instances[i].url);
        }
        i = i + 1;
    }
    None
}

/// The links of every rendered resource, in order.
pub fn links(items: &Vec<JsonValue>) -> (out: Vec<ResourceLink>)
    ensures
        out@.len() == items@.len(),
        forall|j: int| 0 <= j < items@.len() ==> link_matches(#[trigger] out@[j], items@[j]),
{
    let mut out: Vec<ResourceLink> = Vec::new();
    let mut i: usize = 0;
    while i < items.len()
        invariant
            i <= items@.len(),
            out@.len() == i,
            forall|j: int| 0 <= j < i ==> link_matches(#[trigger] out@[j], items@[j]),
        decreases items.len() - i,
    {
        out.push(link(&items[i]));
        i = i + 1;
    }
    out
}

/// What the publication of one endpoint looks like.
///
/// `rendered` is the dataset the publisher renders for this endpoint against the instance it
/// names (`None` when rendering yields no dataset). The answer is `None` when the endpoint
/// declares no `spec.publish.ckan`, or when its instance exists and nothing was rendered.
/// A missing instance still answers, with `instance_missing` set: a dangling reference is
/// what this view has to show.
pub fn publication(
    env: &Envelope,
    instances: &Vec<InstanceSummary>,
    rendered: Option<&JsonValue>,
) -> (r: Option<PublicationStatus>)
    ensures
        match declared_of(env.spec) {
            None => r is None,
            Some(d) => match instance_url(instances@, instance_name_of(d)) {
                None => r matches Some(p) && {
                    &&& p.endpoint@ == env.metadata.name@
                    &&& p.phase == env.phase
                    &&& p.instance@ == instance_name_of(d)
                    &&& p.instance_missing
                    &&& p.organization is None
                    &&& p.dataset@ == text_or_empty(d, "name"@)
                    &&& p.dataset_url is None
                    &&& p.resources@.len() == 0
                    &&& datastore_matches(p.datastore, d)
                },
                Some(base) => match rendered {
                    None => r is None,
                    Some(ds) => r matches Some(p) && {
                        &&& p.endpoint@ == env.metadata.name@
                        &&& p.phase == env.phase
                        &&& p.instance@ == instance_name_of(d)
                        &&& !p.instance_missing
                        &&& match get_text(*ds, "owner_org"@) {
                            Some(o) => p.organization matches Some(x) && x@ == o,
                            None => p.organization is None,
                        }
                        &&& p.dataset@ == text_or_empty(*ds, "name"@)
                        &&& p.dataset_url matches Some(u) && u@ == base + "/dataset/"@
                            + text_or_empty(*ds, "name"@)
                        &&& p.resources@.len() == rendered_resources(*ds).len()
                        &&& forall|j: int|
                            0 <= j < p.resources@.len() ==> link_matches(
                                #[trigger] p.resources@[j],
                                rendered_resources(*ds)[j],
                            )
                        &&& datastore_matches(p.datastore, d)
                    },
                },
            },
        },
{
    let declared = match env.spec.get_member("publish") {
        Some(p) => match p.get_member("ckan") {
            Some(d) => d,
            None => return None,
        },
        None => return None,
    };
    let instance_name: String = match declared.get_member("instanceRef") {
        Some(rf) => match reference_name(rf) {
            Some(n) => n.clone(),
            None => {
                let e: Vec<char> = Vec::new();
                string_of(e.as_slice())
            },
        },
        None => {
            let e: Vec<char> = Vec::new();
            string_of(e.as_slice())
        },
    };
    let phase = match &env.phase {
        Some(p) => Some(p.clone()),
        None => None,
    };
    match find_instance_url(instances, &instance_name) {
        None => {
            Some(PublicationStatus {
                endpoint: env.metadata.name.clone(),
                phase,
                instance: instance_name,
                instance_missing: true,
                organization: None,
                dataset: text(declared, "name"),
                dataset_url: None,
                resources: Vec::new(),
                datastore: datastore(declared),
            })
        },
        Some(base) => {
            let ds = match rendered {
                Some(ds) => ds,
                None => return None,
            };
            let name = text(ds, "name");
            let organization = match ds.text_at("owner_org") {
                Some(o) => Some(o.clone()),
                None => None,
            };
            let mut url: Vec<char> = chars_of(base.as_str());
            append_str(&mut url, "/dataset/");
            append_str(&mut url, name.as_str());
            let resources = match ds.get_member("resources") {
                Some(JsonValue::Array(items)) => links(items),
                _ => Vec::new(),
            };
            Some(PublicationStatus {
                endpoint: env.metadata.name.clone(),
                phase,
                instance: instance_name,
                instance_missing: false,
                organization,
                dataset: name,
                dataset_url: Some(string_of(url.as_slice())),
                resources,
                datastore: datastore(declared),
            })
        },
    }
}

} // verus!
