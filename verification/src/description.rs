//! Device descriptions of other UPnP devices: reading them, describing the
//! device in one line, and registering it when a renderer profile matches.

use std::time::SystemTime;
use vstd::prelude::*;

use crate::registry::{IpAddress, RegisteredDevice, UpnpDetails};
use crate::renderer::{upnp_details_match, RendererConfiguration};
use crate::state::AppState;
use crate::text::{push_str, string_from};

verus! {

// ---------------------------------------------------------------------------
// Calls into roxmltree and url, trusted as specified
// ---------------------------------------------------------------------------

/// `roxmltree::Error`, why a text is not a well-formed XML document.
#[verifier::external_type_specification]
#[verifier::external_body]
pub struct ExXmlError(roxmltree::Error);

/// `roxmltree::Document::parse` accepts the text.
pub uninterp spec fn xml_parses(text: Seq<char>) -> bool;

/// The host of a URL as `Url::parse` and `Url::host_str` find it.
pub uninterp spec fn url_host_of(url: Seq<char>) -> Option<Seq<char>>;

/// One node of a parsed XML document, as the library reads it.
pub struct XmlNode {
    /// The node is an element.
    pub element: bool,
    /// The element's local name; empty for a node that is no element.
    pub local_name: String,
    /// `Node::text`: for an element, the text of its first child when that
    /// child is text.
    pub text: Option<String>,
    /// The position of the parent node in the document's node list.
    pub parent: Option<usize>,
}

/// A node as plain values: element or not, local name, text, parent position.
pub type XmlNodeView = (bool, Seq<char>, Option<Seq<char>>, Option<int>);

/// The plain values of a node.
pub open spec fn node_view(n: XmlNode) -> XmlNodeView {
    (
        n.element,
        n.local_name@,
        match n.text {
            Some(t) => Some(t@),
            None => None,
        },
        match n.parent {
            Some(p) => Some(p as int),
            None => None,
        },
    )
}

/// The plain values of a list of nodes.
pub open spec fn nodes_view(v: Seq<XmlNode>) -> Seq<XmlNodeView> {
    v.map_values(|n: XmlNode| node_view(n))
}

/// The nodes of the document that `roxmltree::Document::parse` makes of the
/// text, in document order as `Document::descendants` gives them (the root
/// first), each with `Node::is_element`, the local name of `Node::tag_name`,
/// `Node::text`, and the position (`NodeId`) of `Node::parent`.
pub uninterp spec fn xml_nodes(text: Seq<char>) -> Seq<XmlNodeView>;

/// `roxmltree::Document::parse`, with the document's nodes converted one for
/// one into plain values: the parse succeeds exactly when the text is an XML
/// document that the parser accepts, and the nodes are only named here.
#[verifier::external_body]
fn parse_xml_nodes(text: &str) -> (r: Result<Vec<XmlNode>, roxmltree::Error>)
    ensures
        r is Ok <==> xml_parses(text@),
        r matches Ok(v) ==> nodes_view(v@) == xml_nodes(text@),
{
    let doc = roxmltree::Document::parse(text)?;
    Ok(doc.descendants().map(|n| XmlNode {
        element: n.is_element(),
        local_name: n.tag_name().name().to_string(),
        text: n.text().map(|t| t.to_string()),
        parent: n.parent().map(|p| p.id().get_usize()),
    }).collect())
}

/// `reqwest::Url::parse` followed by `Url::host_str`: the host of the URL,
/// which is only named here.
#[verifier::external_body]
fn url_host(url: &str) -> (r: Option<String>)
    ensures
        r is Some <==> url_host_of(url@) is Some,
        r matches Some(h) ==> url_host_of(url@) == Some(h@),
{
    reqwest::Url::parse(url).ok().and_then(|u| u.host_str().map(|s| s.to_string()))
}

// ---------------------------------------------------------------------------
// Searching a document's nodes
// ---------------------------------------------------------------------------

/// Node `i` is an element with local name `tag`.
pub open spec fn named_element(nodes: Seq<XmlNodeView>, i: int, tag: Seq<char>) -> bool {
    nodes[i].0 && nodes[i].1 == tag
}

/// Node `j` is node `d` or lies within it: following parents from `j`, each
/// earlier in the document than its child, reaches `d`.
pub open spec fn within(nodes: Seq<XmlNodeView>, j: int, d: int) -> bool
    decreases j,
{
    if j == d {
        true
    } else if j < d || j < 0 || j >= nodes.len() {
        false
    } else {
        match nodes[j].3 {
            Some(p) => if 0 <= p < j {
                within(nodes, p, d)
            } else {
                false
            },
            None => false,
        }
    }
}

/// The first position below `n` at which `p` holds.
pub open spec fn first_index(n: int, p: spec_fn(int) -> bool) -> Option<int>
    decreases n,
{
    if n <= 0 {
        None
    } else {
        match first_index(n - 1, p) {
            Some(i) => Some(i),
            None => if p(n - 1) {
                Some(n - 1)
            } else {
                None
            },
        }
    }
}

/// The position of the first element named `device`, in document order.
pub open spec fn device_position(nodes: Seq<XmlNodeView>) -> Option<int> {
    first_index(nodes.len() as int, |i: int| named_element(nodes, i, "device"@))
}

/// The position of the first element named `tag` that is node `d` or lies
/// within it, in document order.
pub open spec fn field_position(nodes: Seq<XmlNodeView>, d: int, tag: Seq<char>) -> Option<int> {
    first_index(nodes.len() as int, |i: int| within(nodes, i, d) && named_element(nodes, i, tag))
}

/// The text of that element, empty where it or its text is missing.
pub open spec fn field_in(nodes: Seq<XmlNodeView>, d: int, tag: Seq<char>) -> Seq<char> {
    match field_position(nodes, d, tag) {
        Some(j) => match nodes[j].2 {
            Some(t) => t,
            None => Seq::<char>::empty(),
        },
        None => Seq::<char>::empty(),
    }
}

/// The position of the description's `device` element.
pub open spec fn device_of(xml: Seq<char>) -> Option<int> {
    device_position(xml_nodes(xml))
}

/// What `first_index` returns is a position where `p` holds and the first.
pub proof fn lemma_first_index(n: int, p: spec_fn(int) -> bool)
    ensures
        first_index(n, p) matches Some(i) ==> 0 <= i < n && p(i) && forall|k: int|
            0 <= k < i ==> !#[trigger] p(k),
        first_index(n, p) is None ==> forall|k: int| 0 <= k < n ==> !#[trigger] p(k),
    decreases n,
{
    if n > 0 {
        lemma_first_index(n - 1, p);
    }
}

/// Where `p` holds nowhere below `n`, there is no first position.
proof fn lemma_first_index_none(n: int, p: spec_fn(int) -> bool)
    requires
        forall|k: int| 0 <= k < n ==> !#[trigger] p(k),
    ensures
        first_index(n, p) is None,
    decreases n,
{
    if n > 0 {
        lemma_first_index_none(n - 1, p);
    }
}

/// A first position found below `m` stays the first below any larger `n`.
proof fn lemma_first_index_prefix(m: int, n: int, p: spec_fn(int) -> bool)
    requires
        0 <= m <= n,
        first_index(m, p) is Some,
    ensures
        first_index(n, p) == first_index(m, p),
    decreases n - m,
{
    if m < n {
        lemma_first_index_prefix(m, n - 1, p);
    }
}

/// Whether node `j` is node `d` or lies within it.
fn within_exec(nodes: &Vec<XmlNode>, j: usize, d: usize) -> (r: bool)
    requires
        j < nodes@.len(),
    ensures
        r == within(nodes_view(nodes@), j as int, d as int),
{
    let ghost nv = nodes_view(nodes@);
    let mut cur = j;
    while cur > d
        invariant
            cur <= j < nodes@.len(),
            nv == nodes_view(nodes@),
            within(nv, j as int, d as int) == within(nv, cur as int, d as int),
        decreases cur,
    {
        assert(nv[cur as int] == node_view(nodes@[cur as int]));
        match nodes[cur].parent {
            Some(p) => {
                if p < cur {
                    cur = p;
                } else {
                    return false;
                }
            },
            None => {
                return false;
            },
        }
    }
    cur == d
}

/// The position of the first element named `tag`.
fn find_element(nodes: &Vec<XmlNode>, tag: &str) -> (r: Option<usize>)
    ensures
        r matches Some(i) ==> first_index(
            nodes@.len() as int,
            |k: int| named_element(nodes_view(nodes@), k, tag@),
        ) == Some(i as int),
        r is None ==> first_index(
            nodes@.len() as int,
            |k: int| named_element(nodes_view(nodes@), k, tag@),
        ) is None,
{
    let ghost nv = nodes_view(nodes@);
    let ghost p = |k: int| named_element(nv, k, tag@);
    let mut i: usize = 0;
    while i < nodes.len()
        invariant
            i <= nodes@.len(),
            nv == nodes_view(nodes@),
            p == (|k: int| named_element(nv, k, tag@)),
            first_index(i as int, p) is None,
        decreases nodes.len() - i,
    {
        assert(nv[i as int] == node_view(nodes@[i as int]));
        if nodes[i].element && crate::text::str_eq(nodes[i].local_name.as_str(), tag) {
            assert(first_index(i + 1, p) == Some(i as int));
            proof {
                lemma_first_index_prefix(i + 1, nodes@.len() as int, p);
            }
            return Some(i);
        }
        i += 1;
    }
    None
}

/// The position of the first element named `tag` that is node `d` or lies
/// within it.
fn find_within(nodes: &Vec<XmlNode>, d: usize, tag: &str) -> (r: Option<usize>)
    ensures
        r matches Some(j) ==> field_position(nodes_view(nodes@), d as int, tag@) == Some(j as int)
            && j < nodes@.len(),
        r is None ==> field_position(nodes_view(nodes@), d as int, tag@) is None,
{
    let ghost nv = nodes_view(nodes@);
    let ghost p = |k: int| within(nv, k, d as int) && named_element(nv, k, tag@);
    let start = if d < nodes.len() { d } else { nodes.len() };
    proof {
        assert forall|k: int| 0 <= k < start implies !#[trigger] p(k) by {
        }
        lemma_first_index_none(start as int, p);
    }
    let mut i: usize = start;
    while i < nodes.len()
        invariant
            i <= nodes@.len(),
            nv == nodes_view(nodes@),
            p == (|k: int| within(nv, k, d as int) && named_element(nv, k, tag@)),
            first_index(i as int, p) is None,
        decreases nodes.len() - i,
    {
        assert(nv[i as int] == node_view(nodes@[i as int]));
        if within_exec(nodes, i, d) && nodes[i].element && crate::text::str_eq(
            nodes[i].local_name.as_str(),
            tag,
        ) {
            assert(first_index(i + 1, p) == Some(i as int));
            proof {
                lemma_first_index_prefix(i + 1, nodes@.len() as int, p);
            }
            return Some(i);
        }
        i += 1;
    }
    None
}

// ---------------------------------------------------------------------------
// Reading a description
// ---------------------------------------------------------------------------

/// Why a device description could not be read.
#[derive(Debug)]
pub enum DescriptionError {
    /// The text is not a well-formed XML document.
    XmlParse(roxmltree::Error),
    /// The document has no `device` element.
    NoDevice,
}

/// The texts of a device element's fields, empty where missing.
pub struct DeviceFields {
    pub friendly_name: String,
    pub manufacturer: String,
    pub model_name: String,
    pub model_number: String,
    pub model_description: String,
    pub manufacturer_url: String,
    pub model_url: String,
    pub udn: String,
}

/// An optional text, or the empty text.
fn text_or_empty(t: Option<String>) -> (r: String)
    ensures
        r@ == (match t {
            Some(s) => s@,
            None => Seq::<char>::empty(),
        }),
{
    match t {
        Some(s) => s,
        None => String::new(),
    }
}

/// The text of field `tag` of the description's `device` element, empty
/// where the field or its text is missing.
pub open spec fn field_text(xml: Seq<char>, tag: Seq<char>) -> Seq<char> {
    match device_of(xml) {
        Some(d) => field_in(xml_nodes(xml), d, tag),
        None => Seq::<char>::empty(),
    }
}

/// The fields carry the texts of the description's `device` element.
pub open spec fn fields_of_description(f: DeviceFields, xml: Seq<char>) -> bool {
    &&& f.friendly_name@ == field_text(xml, "friendlyName"@)
    &&& f.manufacturer@ == field_text(xml, "manufacturer"@)
    &&& f.model_name@ == field_text(xml, "modelName"@)
    &&& f.model_number@ == field_text(xml, "modelNumber"@)
    &&& f.model_description@ == field_text(xml, "modelDescription"@)
    &&& f.manufacturer_url@ == field_text(xml, "manufacturerURL"@)
    &&& f.model_url@ == field_text(xml, "modelURL"@)
    &&& f.udn@ == field_text(xml, "UDN"@)
}

/// The text of the first element named `tag` within node `d`.
fn read_field(nodes: &Vec<XmlNode>, d: usize, tag: &str) -> (r: String)
    ensures
        r@ == field_in(nodes_view(nodes@), d as int, tag@),
{
    match find_within(nodes, d, tag) {
        Some(j) => {
            assert(nodes_view(nodes@)[j as int] == node_view(nodes@[j as int]));
            match &nodes[j].text {
                Some(t) => t.clone(),
                None => String::new(),
            }
        },
        None => String::new(),
    }
}

/// Reads the fields of the first `device` element of a description: a text
/// that does not parse is refused with `XmlParse`, a document without a
/// `device` element with `NoDevice`; otherwise each field carries the text of
/// the first element of its name within the device element, or is empty.
pub fn read_device_fields(xml: &str) -> (r: Result<DeviceFields, DescriptionError>)
    ensures
        (r matches Err(DescriptionError::XmlParse(_))) <==> !xml_parses(xml@),
        (r matches Err(DescriptionError::NoDevice)) <==> (xml_parses(xml@) && device_of(xml@) is None),
        r matches Ok(f) ==> fields_of_description(f, xml@),
{
    let nodes = match parse_xml_nodes(xml) {
        Ok(v) => v,
        Err(e) => {
            return Err(DescriptionError::XmlParse(e));
        },
    };
    let d = match find_element(&nodes, "device") {
        Some(d) => d,
        None => {
            return Err(DescriptionError::NoDevice);
        },
    };
    Ok(
        DeviceFields {
            friendly_name: read_field(&nodes, d, "friendlyName"),
            manufacturer: read_field(&nodes, d, "manufacturer"),
            model_name: read_field(&nodes, d, "modelName"),
            model_number: read_field(&nodes, d, "modelNumber"),
            model_description: read_field(&nodes, d, "modelDescription"),
            manufacturer_url: read_field(&nodes, d, "manufacturerURL"),
            model_url: read_field(&nodes, d, "modelURL"),
            udn: read_field(&nodes, d, "UDN"),
        },
    )
}

/// The address recorded for a device: the host of its description's URL, or
/// its IP address when the URL has none.
pub open spec fn device_address(location: Seq<char>, ip_text: Seq<char>) -> Seq<char> {
    match url_host_of(location) {
        Some(h) => h,
        None => ip_text,
    }
}

/// The details of a device from its description's fields and its address.
pub fn device_details(fields: DeviceFields, location: &str, ip_text: &str) -> (r: UpnpDetails)
    ensures
        r.friendly_name == fields.friendly_name,
        r.manufacturer == fields.manufacturer,
        r.model_name == fields.model_name,
        r.model_number == fields.model_number,
        r.model_description == fields.model_description,
        r.manufacturer_url == fields.manufacturer_url,
        r.model_url == fields.model_url,
        r.udn == fields.udn,
        r.address@ == device_address(location@, ip_text@),
{
    let address = match url_host(location) {
        Some(h) => h,
        None => string_from(ip_text),
    };
    UpnpDetails {
        friendly_name: fields.friendly_name,
        manufacturer: fields.manufacturer,
        model_name: fields.model_name,
        model_number: fields.model_number,
        model_description: fields.model_description,
        manufacturer_url: fields.manufacturer_url,
        model_url: fields.model_url,
        address,
        udn: fields.udn,
    }
}

/// A device in one line, in the order renderer profiles are written for:
/// friendly name, address, UDN, manufacturer, model name, model number, model
/// description, manufacturer URL, model URL, separated by spaces.
pub open spec fn details_text(d: UpnpDetails) -> Seq<char> {
    d.friendly_name@ + " "@ + d.address@ + " "@ + d.udn@ + " "@ + d.manufacturer@ + " "@
        + d.model_name@ + " "@ + d.model_number@ + " "@ + d.model_description@ + " "@
        + d.manufacturer_url@ + " "@ + d.model_url@
}

/// The device in one line.
pub fn details_string(d: &UpnpDetails) -> (r: String)
    ensures
        r@ == details_text(*d),
{
    let mut s = d.friendly_name.clone();
    push_str(&mut s, " ");
    push_str(&mut s, d.address.as_str());
    push_str(&mut s, " ");
    push_str(&mut s, d.udn.as_str());
    push_str(&mut s, " ");
    push_str(&mut s, d.manufacturer.as_str());
    push_str(&mut s, " ");
    push_str(&mut s, d.model_name.as_str());
    push_str(&mut s, " ");
    push_str(&mut s, d.model_number.as_str());
    push_str(&mut s, " ");
    push_str(&mut s, d.model_description.as_str());
    push_str(&mut s, " ");
    push_str(&mut s, d.manufacturer_url.as_str());
    push_str(&mut s, " ");
    push_str(&mut s, d.model_url.as_str());
    s
}

// ---------------------------------------------------------------------------
// Matching and registering
// ---------------------------------------------------------------------------

/// The first profile in `rs` whose device-details pattern matches, if any.
pub open spec fn first_details_match(rs: Seq<RendererConfiguration>, details: Seq<char>) -> Option<int>
    decreases rs.len(),
{
    if rs.len() == 0 {
        None
    } else {
        match first_details_match(rs.drop_last(), details) {
            Some(i) => Some(i),
            None => if upnp_details_match(rs.last()@, details) {
                Some(rs.len() - 1)
            } else {
                None
            },
        }
    }
}

/// What `first_details_match` returns is a match and the first one.
pub proof fn lemma_first_details_match(rs: Seq<RendererConfiguration>, details: Seq<char>)
    ensures
        first_details_match(rs, details) matches Some(i) ==> {
            &&& 0 <= i < rs.len()
            &&& upnp_details_match(rs[i]@, details)
            &&& forall|j: int| 0 <= j < i ==> !upnp_details_match(#[trigger] rs[j]@, details)
        },
        first_details_match(rs, details) is None ==> forall|j: int|
            0 <= j < rs.len() ==> !upnp_details_match(#[trigger] rs[j]@, details),
    decreases rs.len(),
{
    if rs.len() > 0 {
        lemma_first_details_match(rs.drop_last(), details);
        assert forall|j: int| 0 <= j < rs.len() - 1 implies #[trigger] rs[j] == rs.drop_last()[j] by {
        }
    }
}

proof fn lemma_prefix_details_match(rs: Seq<RendererConfiguration>, details: Seq<char>, n: int)
    requires
        0 <= n <= rs.len(),
        first_details_match(rs.take(n), details) is Some,
    ensures
        first_details_match(rs, details) == first_details_match(rs.take(n), details),
    decreases rs.len() - n,
{
    if n < rs.len() {
        assert(rs.take(n + 1).drop_last() =~= rs.take(n));
        lemma_prefix_details_match(rs, details, n + 1);
    } else {
        assert(rs.take(n) =~= rs);
    }
}

/// The position of the first profile whose device-details pattern matches.
pub fn find_details_renderer(renderers: &Vec<RendererConfiguration>, details: &str) -> (r: Option<usize>)
    ensures
        r matches Some(i) ==> first_details_match(renderers@, details@) == Some(i as int),
        r is None ==> first_details_match(renderers@, details@) is None,
{
    let mut i: usize = 0;
    while i < renderers.len()
        invariant
            i <= renderers@.len(),
            first_details_match(renderers@.take(i as int), details@) is None,
        decreases renderers.len() - i,
    {
        assert(renderers@.take(i + 1).drop_last() =~= renderers@.take(i as int));
        if renderers[i].match_upnp_details(details) {
            assert(first_details_match(renderers@.take(i + 1), details@) == Some(i as int));
            proof {
                lemma_prefix_details_match(renderers@, details@, i + 1);
            }
            return Some(i);
        }
        i += 1;
    }
    assert(renderers@.take(renderers@.len() as int) =~= renderers@);
    None
}

/// Registers the device at `ip` with the first profile whose device-details
/// pattern matches its one-line description; a device that matches no
/// profile is not registered. Returns whether it was.
pub fn register_device(state: &mut AppState, ip: IpAddress, details: UpnpDetails, now: SystemTime) -> (r: bool)
    ensures
        r == first_details_match(old(state).renderers@, details_text(details)) is Some,
        r ==> {
            let i = first_details_match(old(state).renderers@, details_text(details))->0;
            &&& final(state).registry.devices().dom() == old(state).registry.devices().dom().insert(ip)
            &&& forall|q: IpAddress| q != ip && #[trigger] old(state).registry.devices().contains_key(q)
                ==> final(state).registry.devices()[q] == old(state).registry.devices()[q]
            &&& final(state).registry.devices()[ip].ip == ip
            &&& final(state).registry.devices()[ip].renderer@ == old(state).renderers@[i]@
            &&& final(state).registry.devices()[ip].details == details
            &&& final(state).registry.devices()[ip].last_seen == now
        },
        !r ==> final(state).registry.devices() == old(state).registry.devices(),
        final(state).library == old(state).library,
        final(state).renderers == old(state).renderers,
        final(state).system_update_id == old(state).system_update_id,
{
    let text = details_string(&details);
    proof {
        lemma_first_details_match(state.renderers@, text@);
    }
    match find_details_renderer(&state.renderers, text.as_str()) {
        Some(i) => {
            let renderer = state.renderers[i].duplicate();
            let device = RegisteredDevice { ip, renderer, details, last_seen: now };
            state.registry.register(ip, device);
            true
        },
        None => false,
    }
}

/// The device's details as read from its description fetched from
/// `location`: the fields of its `device` element, and its address.
pub open spec fn details_of_description(d: UpnpDetails, xml: Seq<char>, location: Seq<char>, ip_text: Seq<char>) -> bool {
    &&& d.friendly_name@ == field_text(xml, "friendlyName"@)
    &&& d.manufacturer@ == field_text(xml, "manufacturer"@)
    &&& d.model_name@ == field_text(xml, "modelName"@)
    &&& d.model_number@ == field_text(xml, "modelNumber"@)
    &&& d.model_description@ == field_text(xml, "modelDescription"@)
    &&& d.manufacturer_url@ == field_text(xml, "manufacturerURL"@)
    &&& d.model_url@ == field_text(xml, "modelURL"@)
    &&& d.udn@ == field_text(xml, "UDN"@)
    &&& d.address@ == device_address(location, ip_text)
}

/// The one-line text of the device described by `xml`, fetched from
/// `location` (see `details_text`).
pub open spec fn description_line(xml: Seq<char>, location: Seq<char>, ip_text: Seq<char>) -> Seq<char> {
    field_text(xml, "friendlyName"@) + " "@ + device_address(location, ip_text) + " "@
        + field_text(xml, "UDN"@) + " "@ + field_text(xml, "manufacturer"@) + " "@
        + field_text(xml, "modelName"@) + " "@ + field_text(xml, "modelNumber"@) + " "@
        + field_text(xml, "modelDescription"@) + " "@ + field_text(xml, "manufacturerURL"@)
        + " "@ + field_text(xml, "modelURL"@)
}

/// Reads a device description fetched from `location` and registers the
/// device at `ip` with the first renderer profile whose device-details
/// pattern matches its one-line text. A text that does not parse is refused
/// with `XmlParse`, a document without a `device` element with `NoDevice`;
/// otherwise the result says whether the device was registered.
pub fn register_from_description(
    state: &mut AppState,
    xml: &str,
    location: &str,
    ip: IpAddress,
    ip_text: &str,
    now: SystemTime,
) -> (r: Result<bool, DescriptionError>)
    ensures
        (r matches Err(DescriptionError::XmlParse(_))) <==> !xml_parses(xml@),
        (r matches Err(DescriptionError::NoDevice)) <==> (xml_parses(xml@) && device_of(xml@) is None),
        r matches Ok(b) ==> b == first_details_match(
            old(state).renderers@,
            description_line(xml@, location@, ip_text@),
        ) is Some,
        r matches Ok(true) ==> {
            let i = first_details_match(
                old(state).renderers@,
                description_line(xml@, location@, ip_text@),
            )->0;
            &&& final(state).registry.devices().dom() == old(state).registry.devices().dom().insert(ip)
            &&& forall|q: IpAddress| q != ip && #[trigger] old(state).registry.devices().contains_key(q)
                ==> final(state).registry.devices()[q] == old(state).registry.devices()[q]
            &&& final(state).registry.devices()[ip].ip == ip
            &&& final(state).registry.devices()[ip].renderer@ == old(state).renderers@[i]@
            &&& details_of_description(final(state).registry.devices()[ip].details, xml@, location@, ip_text@)
            &&& final(state).registry.devices()[ip].last_seen == now
        },
        !(r matches Ok(true)) ==> final(state).registry.devices() == old(state).registry.devices(),
        final(state).library == old(state).library,
        final(state).renderers == old(state).renderers,
        final(state).system_update_id == old(state).system_update_id,
{
    let fields = match read_device_fields(xml) {
        Ok(f) => f,
        Err(e) => {
            return Err(e);
        },
    };
    let details = device_details(fields, location, ip_text);
    assert(details_text(details) == description_line(xml@, location@, ip_text@));
    Ok(register_device(state, ip, details, now))
}

} // verus!
