//! Discovery: which addresses to probe, how to read a device's answer to the
//! device-info query, and how the answers become the registry.

use vstd::prelude::*;
use vstd::string::StringExecFns;
use crate::device::{DeviceView, Ipv4Address, RokuDevice, registry_view};
use crate::text::{
    chars_of, lemma_split_char_nonempty, same_text, split_char, split_once, split_once_spec,
    split_str, strings_view, strip_cr, trim_cr,
};

verus! {

/// The TCP port on which devices take queries and commands.
pub const DEVICE_PORT: u16 = 8060;

/// Probing covers the host's /24 with last octet in `1..SUBNET_SEARCH_LIMIT`.
pub const SUBNET_SEARCH_LIMIT: u8 = 15;

/// The request sent to each candidate to ask what it is.
pub const DEVICE_INFO_QUERY: &'static str = "GET /query/device-info HTTP/1.1\r\n\r\n";

/// The host's own address, as far as discovery cares.
#[derive(Clone, Copy, Debug, PartialEq, Eq, Structural)]
pub enum HostAddress {
    V4(Ipv4Address),
    V6,
}

/// Why discovery cannot start.
#[derive(Clone, Copy, Debug, PartialEq, Eq, Structural)]
pub enum DiscoveryError {
    /// The host's own address could not be determined.
    HostAddressUnavailable,
    /// The host's address is not IPv4.
    UnsupportedAddressFamily,
}

/// The addresses of the host's /24 whose last octet lies in `1..limit`, ascending.
pub open spec fn candidates(host: Ipv4Address, limit: u8) -> Seq<Ipv4Address> {
    let n: int = if limit > 1 { limit - 1 } else { 0 };
    Seq::new(n as nat, |k: int| Ipv4Address(host.0, host.1, host.2, (k + 1) as u8))
}

/// Strictly ascending addresses.
pub open spec fn ascending(s: Seq<Ipv4Address>) -> bool {
    forall|i: int, j: int| 0 <= i < j < s.len() ==> s[i].value() < s[j].value()
}

/// The candidate addresses to probe, given what is known of the host.
pub fn scan_range(host: Option<HostAddress>, limit: u8) -> (r: Result<
    Vec<Ipv4Address>,
    DiscoveryError,
>)
    ensures
        match host {
            None => r == Err::<Vec<Ipv4Address>, _>(DiscoveryError::HostAddressUnavailable),
            Some(HostAddress::V6) => r == Err::<Vec<Ipv4Address>, _>(
                DiscoveryError::UnsupportedAddressFamily,
            ),
            Some(HostAddress::V4(a)) => r matches Ok(v) && v@ == candidates(a, limit),
        },
        r matches Ok(v) ==> ascending(v@),
{
    match host {
        None => Err(DiscoveryError::HostAddressUnavailable),
        Some(HostAddress::V6) => Err(DiscoveryError::UnsupportedAddressFamily),
        Some(HostAddress::V4(a)) => {
            let mut v: Vec<Ipv4Address> = Vec::new();
            let mut last: u8 = 1;
            while last < limit
                invariant
                    1 <= last,
                    last <= limit || last == 1,
                    v@ == candidates(a, last),
                decreases limit - last,
            {
                v.push(Ipv4Address(a.0, a.1, a.2, last));
                last += 1;
                assert(v@ =~= candidates(a, last));
            }
            assert(v@ =~= candidates(a, limit));
            Ok(v)
        },
    }
}

/// The blank line that ends the head of an HTTP message.
pub open spec fn head_boundary() -> Seq<char> {
    seq!['\r', '\n', '\r', '\n']
}

/// A response split at its first blank line into head and body.
pub open spec fn split_response_spec(s: Seq<char>) -> Option<(Seq<char>, Seq<char>)> {
    split_once_spec(s, head_boundary())
}

/// The first line of a message head.
pub open spec fn first_line(head: Seq<char>) -> Seq<char> {
    strip_cr(split_char(head, '\n')[0])
}

pub open spec fn is_digit(c: char) -> bool {
    '0' <= c && c <= '9'
}

/// A three-digit status code of the success class.
pub open spec fn is_success_code(code: Seq<char>) -> bool {
    code.len() == 3 && code[0] == '2' && is_digit(code[1]) && is_digit(code[2])
}

/// A status line whose second space-separated field is a success code.
pub open spec fn status_line_ok(line: Seq<char>) -> bool {
    let fields = split_char(line, ' ');
    fields.len() >= 2 && is_success_code(fields[1])
}

/// The text of the first element named `tag` in the XML document `xml`, as
/// roxmltree finds it; `None` when there is none.
pub uninterp spec fn xml_element_text(xml: Seq<char>, tag: Seq<char>) -> Option<Seq<char>>;

pub open spec fn opt_string_view(o: Option<String>) -> Option<Seq<char>> {
    match o {
        Some(s) => Some(s@),
        None => None,
    }
}

pub open spec fn opt_device_view(o: Option<RokuDevice>) -> Option<DeviceView> {
    match o {
        Some(d) => Some(d@),
        None => None,
    }
}

/// A device from the two fields read out of its answer: both must be there
/// and hold some text.
pub open spec fn device_from_fields_spec(
    address: Ipv4Address,
    name: Option<Seq<char>>,
    location: Option<Seq<char>>,
) -> Option<DeviceView> {
    match (name, location) {
        (Some(n), Some(l)) => if n.len() > 0 && l.len() > 0 {
            Some(DeviceView { name: n, address, location: l })
        } else {
            None
        },
        _ => None,
    }
}

/// The device that answered `response` from `address`, if the answer is a
/// well-formed success carrying both fields.
pub open spec fn classify_spec(address: Ipv4Address, response: Seq<char>) -> Option<DeviceView> {
    match split_response_spec(response) {
        None => None,
        Some((head, body)) => if status_line_ok(first_line(head)) {
            device_from_fields_spec(
                address,
                xml_element_text(body, "friendly-device-name"@),
                xml_element_text(body, "user-device-location"@),
            )
        } else {
            None
        },
    }
}

/// Relies on roxmltree's `Document::parse`, `descendants` and `Node::text`:
/// the text of the first element named `tag` in `xml`, or `None` when the
/// document does not parse, has no such element, or that element has no text.
#[verifier::external_body]
fn xml_text_of(xml: &str, tag: &str) -> (r: Option<String>)
    ensures
        opt_string_view(r) == xml_element_text(xml@, tag@),
{
    match roxmltree::Document::parse(xml) {
        Ok(doc) => doc.descendants()
            .find(|n| same_text(n.tag_name().name(), tag))
            .and_then(|n| n.text())
            .map(|t| t.to_string()),
        Err(_) => None,
    }
}

/// A device from the fields read out of its answer, when both are present
/// and non-empty.
pub fn device_from_fields(
    address: Ipv4Address,
    name: Option<String>,
    location: Option<String>,
) -> (r: Option<RokuDevice>)
    ensures
        opt_device_view(r) == device_from_fields_spec(
            address,
            opt_string_view(name),
            opt_string_view(location),
        ),
{
    match (name, location) {
        (Some(n), Some(l)) => {
            if n.as_str().unicode_len() > 0 && l.as_str().unicode_len() > 0 {
                Some(RokuDevice::new(n, address, l))
            } else {
                None
            }
        },
        _ => None,
    }
}

/// The head and body of a response, split at its first blank line; `None`
/// when it has none.
pub fn split_response(response: &str) -> (r: Option<(String, String)>)
    ensures
        match r {
            Some((head, body)) => split_response_spec(response@) == Some((head@, body@)),
            None => split_response_spec(response@) is None,
        },
{
    let boundary: Vec<char> = vec!['\r', '\n', '\r', '\n'];
    assert(boundary@ =~= head_boundary());
    split_once(response, &boundary)
}

/// Whether the first line of a response head reports success.
pub fn status_ok(head: &str) -> (r: bool)
    ensures
        r == status_line_ok(first_line(head@)),
{
    let lines = split_str(head, '\n');
    proof {
        lemma_split_char_nonempty(head@, '\n');
    }
    assert(strings_view(lines@)[0] == lines@[0]@);
    let stripped = trim_cr(lines[0].as_str());
    let fields = split_str(stripped, ' ');
    if fields.len() < 2 {
        return false;
    }
    assert(strings_view(fields@)[1] == fields@[1]@);
    let code = chars_of(fields[1].as_str());
    code.len() == 3 && code[0] == '2' && '0' <= code[1] && code[1] <= '9' && '0' <= code[2]
        && code[2] <= '9'
}

/// The device that sent `response` from `address`: present when the
/// response is a success whose XML body names the device and its location.
pub fn classify_response(address: Ipv4Address, response: &str) -> (r: Option<RokuDevice>)
    ensures
        opt_device_view(r) == classify_spec(address, response@),
{
    match split_response(response) {
        None => None,
        Some((head, body)) => {
            if !status_ok(head.as_str()) {
                return None;
            }
            let name = xml_text_of(body.as_str(), "friendly-device-name");
            let location = xml_text_of(body.as_str(), "user-device-location");
            device_from_fields(address, name, location)
        },
    }
}

/// What probing one candidate address gave: the full response to the
/// device-info query, or `None` when nothing could be read from it.
pub struct Probe {
    pub address: Ipv4Address,
    pub response: Option<String>,
}

pub struct ProbeView {
    pub address: Ipv4Address,
    pub response: Option<Seq<char>>,
}

impl View for Probe {
    type V = ProbeView;

    open spec fn view(&self) -> ProbeView {
        ProbeView { address: self.address, response: opt_string_view(self.response) }
    }
}

pub open spec fn probes_view(v: Seq<Probe>) -> Seq<ProbeView> {
    v.map_values(|p: Probe| p@)
}

/// The device a probe found, if any.
pub open spec fn probe_device(p: ProbeView) -> Option<DeviceView> {
    match p.response {
        Some(r) => classify_spec(p.address, r),
        None => None,
    }
}

/// The registry built from a run of probes: the devices found, in the order
/// of the probes.
pub open spec fn registry_of(probes: Seq<ProbeView>) -> Seq<DeviceView>
    decreases probes.len(),
{
    if probes.len() == 0 {
        Seq::empty()
    } else {
        let prev = registry_of(probes.drop_last());
        match probe_device(probes.last()) {
            Some(d) => prev.push(d),
            None => prev,
        }
    }
}

/// The registry from the probes of one discovery run, in probe order.
pub fn build_registry(probes: &Vec<Probe>) -> (r: Vec<RokuDevice>)
    ensures
        registry_view(r@) == registry_of(probes_view(probes@)),
{
    let mut found: Vec<RokuDevice> = Vec::new();
    let mut i: usize = 0;
    while i < probes.len()
        invariant
            i <= probes@.len(),
            registry_view(found@) == registry_of(probes_view(probes@).subrange(0, i as int)),
        decreases probes@.len() - i,
    {
        let ghost pv = probes_view(probes@).subrange(0, i + 1);
        assert(pv.drop_last() =~= probes_view(probes@).subrange(0, i as int));
        assert(pv.last() == probes@[i as int]@);
        let probe = &probes[i];
        match &probe.response {
            Some(response) => {
                match classify_response(probe.address, response.as_str()) {
                    Some(device) => {
                        found.push(device);
                        assert(registry_view(found@) =~= registry_of(pv));
                    },
                    None => {},
                }
            },
            None => {},
        }
        i += 1;
    }
    assert(probes_view(probes@).subrange(0, i as int) =~= probes_view(probes@));
    found
}

/// A device found by a probe carries the probe's address.
pub proof fn lemma_probe_device_address(p: ProbeView)
    ensures
        probe_device(p) matches Some(d) ==> d.address == p.address,
{
}

/// Every device in the registry is what some probe of the run found.
pub proof fn lemma_registry_from_probes(probes: Seq<ProbeView>)
    ensures
        forall|k: int|
            0 <= k < registry_of(probes).len() ==> exists|j: int|
                0 <= j < probes.len() && probe_device(probes[j]) == Some(
                    #[trigger] registry_of(probes)[k],
                ),
    decreases probes.len(),
{
    if probes.len() > 0 {
        let prev = probes.drop_last();
        lemma_registry_from_probes(prev);
        assert forall|k: int| 0 <= k < registry_of(probes).len() implies exists|j: int|
            0 <= j < probes.len() && probe_device(probes[j]) == Some(
                #[trigger] registry_of(probes)[k],
            ) by {
            if k < registry_of(prev).len() {
                let j = choose|j: int|
                    0 <= j < prev.len() && probe_device(prev[j]) == Some(registry_of(prev)[k]);
                assert(probes[j] == prev[j]);
            } else {
                assert(probe_device(probes[probes.len() - 1]) == Some(registry_of(probes)[k]));
            }
        }
    }
}

/// Discovery is deterministic: two runs whose probes gave the same answers
/// build the same registry, in the same order.
pub proof fn lemma_registry_deterministic(first: Seq<ProbeView>, second: Seq<ProbeView>)
    requires
        first == second,
    ensures
        registry_of(first) == registry_of(second),
{
}

/// Probes made in ascending address order give a registry in ascending
/// address order.
pub proof fn lemma_registry_ascending(probes: Seq<ProbeView>)
    requires
        forall|i: int, j: int|
            0 <= i < j < probes.len() ==> probes[i].address.value() < probes[j].address.value(),
    ensures
        forall|i: int, j: int|
            0 <= i < j < registry_of(probes).len() ==> registry_of(probes)[i].address.value()
                < registry_of(probes)[j].address.value(),
    decreases probes.len(),
{
    if probes.len() > 0 {
        let prev = probes.drop_last();
        lemma_registry_ascending(prev);
        lemma_registry_from_probes(prev);
        let last = probes.last();
        lemma_probe_device_address(last);
        let reg = registry_of(probes);
        assert forall|i: int, j: int| 0 <= i < j < reg.len() implies reg[i].address.value()
            < reg[j].address.value() by {
            if j == registry_of(prev).len() {
                let k = choose|k: int|
                    0 <= k < prev.len() && probe_device(prev[k]) == Some(registry_of(prev)[i]);
                lemma_probe_device_address(prev[k]);
                assert(prev[k] == probes[k]);
            }
        }
    }
}

} // verus!
