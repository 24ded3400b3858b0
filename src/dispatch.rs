//! Routing a decoded request to what the gateway does about it: answer at
//! once, relay a key press to a device, or serve a static asset.

use vstd::prelude::*;
use vstd::string::StringExecFns;
use crate::device::{DeviceView, Ipv4Address, RokuDevice, registry_view};
use crate::discovery::DEVICE_PORT;
use crate::request::{Request, RequestView};
use crate::response::{Response, ResponseView, plain_response};
use crate::text::{contains_seq, contains_str, same_text, split_char, split_str, strings_view};

verus! {

/// The device and key named by a key-press form.
#[derive(Debug)]
pub struct KeypressForm {
    pub device: String,
    pub action: String,
}

/// Why a key-press form was refused.
#[derive(Debug)]
pub enum FormError {
    /// A pair that is not `name=value` with both parts non-empty.
    MalformedParameter(String),
    /// No `device` or no `action` in the form.
    MissingParameter,
}

/// What a key-press form reads as.
pub enum FormView {
    Parsed { device: Seq<char>, action: Seq<char> },
    Malformed(Seq<char>),
    Missing,
}

pub open spec fn form_result_view(r: Result<KeypressForm, FormError>) -> FormView {
    match r {
        Ok(f) => FormView::Parsed { device: f.device@, action: f.action@ },
        Err(FormError::MalformedParameter(p)) => FormView::Malformed(p@),
        Err(FormError::MissingParameter) => FormView::Missing,
    }
}

/// A form pair splits on `=` into exactly two non-empty parts.
pub open spec fn pair_well_formed(pair: Seq<char>) -> bool {
    let parts = split_char(pair, '=');
    parts.len() == 2 && parts[0].len() > 0 && parts[1].len() > 0
}

/// The form's pairs read from first to last: the first malformed pair, or
/// the last `device` and `action` values seen so far. Other names are
/// ignored.
pub open spec fn read_pairs(pairs: Seq<Seq<char>>) -> Result<
    (Option<Seq<char>>, Option<Seq<char>>),
    Seq<char>,
>
    decreases pairs.len(),
{
    if pairs.len() == 0 {
        Ok((None, None))
    } else {
        match read_pairs(pairs.drop_last()) {
            Err(bad) => Err(bad),
            Ok((device, action)) => {
                let pair = pairs.last();
                if !pair_well_formed(pair) {
                    Err(pair)
                } else {
                    let parts = split_char(pair, '=');
                    if parts[0] == "device"@ {
                        Ok((Some(parts[1]), action))
                    } else if parts[0] == "action"@ {
                        Ok((device, Some(parts[1])))
                    } else {
                        Ok((device, action))
                    }
                }
            },
        }
    }
}

/// A url-encoded key-press body (`device=<name>&action=<key>`) read.
pub open spec fn keypress_form(body: Seq<char>) -> FormView {
    match read_pairs(split_char(body, '&')) {
        Err(bad) => FormView::Malformed(bad),
        Ok((Some(device), Some(action))) => FormView::Parsed { device, action },
        Ok(_) => FormView::Missing,
    }
}

/// Once a malformed pair has been met, later pairs change nothing.
proof fn lemma_malformed_pair_stays(pairs: Seq<Seq<char>>, k: int, bad: Seq<char>)
    requires
        0 <= k <= pairs.len(),
        read_pairs(pairs.subrange(0, k)) == Err::<(Option<Seq<char>>, Option<Seq<char>>), _>(
            bad,
        ),
    ensures
        read_pairs(pairs) == Err::<(Option<Seq<char>>, Option<Seq<char>>), _>(bad),
    decreases pairs.len() - k,
{
    if k < pairs.len() {
        assert(pairs.subrange(0, k + 1).drop_last() =~= pairs.subrange(0, k));
        lemma_malformed_pair_stays(pairs, k + 1, bad);
    } else {
        assert(pairs.subrange(0, k) =~= pairs);
    }
}

fn opt_clone(o: &Option<String>) -> (r: Option<String>)
    ensures
        r == *o,
{
    match o {
        Some(s) => Some(s.clone()),
        None => None,
    }
}

/// Reads a url-encoded key-press body.
pub fn parse_keypress_form(body: &str) -> (r: Result<KeypressForm, FormError>)
    ensures
        form_result_view(r) == keypress_form(body@),
{
    let pairs = split_str(body, '&');
    let ghost pv = split_char(body@, '&');
    let mut device: Option<String> = None;
    let mut action: Option<String> = None;
    let mut k: usize = 0;
    assert(pv.subrange(0, 0) =~= Seq::<Seq<char>>::empty());
    while k < pairs.len()
        invariant
            k <= pairs@.len(),
            pv == split_char(body@, '&'),
            strings_view(pairs@) == pv,
            read_pairs(pv.subrange(0, k as int)) == Ok::<_, Seq<char>>(
                (crate::discovery::opt_string_view(device), crate::discovery::opt_string_view(action)),
            ),
        decreases pairs@.len() - k,
    {
        let pair = &pairs[k];
        assert(pv[k as int] == pair@);
        let ghost next = pv.subrange(0, k + 1);
        assert(next.drop_last() =~= pv.subrange(0, k as int));
        let parts = split_str(pair.as_str(), '=');
        let ghost sp = split_char(pair@, '=');
        assert(next.last() == pair@);
        assert(sp.len() == parts@.len());
        if parts.len() != 2 {
            assert(!pair_well_formed(pair@));
            assert(read_pairs(next) == Err::<(Option<Seq<char>>, Option<Seq<char>>), _>(pair@));
            proof {
                lemma_malformed_pair_stays(pv, k + 1, pair@);
            }
            let bad = pair.clone();
            assert(bad@ == pair@);
            return Err(FormError::MalformedParameter(bad));
        }
        assert(sp[0] == parts@[0]@);
        assert(sp[1] == parts@[1]@);
        if parts[0].as_str().is_empty() || parts[1].as_str().is_empty() {
            assert(!pair_well_formed(pair@));
            assert(read_pairs(next) == Err::<(Option<Seq<char>>, Option<Seq<char>>), _>(pair@));
            proof {
                lemma_malformed_pair_stays(pv, k + 1, pair@);
            }
            let bad = pair.clone();
            assert(bad@ == pair@);
            return Err(FormError::MalformedParameter(bad));
        }
        if same_text(parts[0].as_str(), "device") {
            device = Some(parts[1].clone());
        } else if same_text(parts[0].as_str(), "action") {
            action = Some(parts[1].clone());
        }
        k += 1;
    }
    assert(pv.subrange(0, k as int) =~= pv);
    match (opt_clone(&device), opt_clone(&action)) {
        (Some(d), Some(a)) => Ok(KeypressForm { device: d, action: a }),
        _ => Err(FormError::MissingParameter),
    }
}

/// The position of the first device from `i` on whose name is `name`.
pub open spec fn lookup_from(devices: Seq<DeviceView>, name: Seq<char>, i: int) -> Option<int>
    decreases devices.len() - i,
{
    if i < 0 || i >= devices.len() {
        None
    } else if devices[i].name == name {
        Some(i)
    } else {
        lookup_from(devices, name, i + 1)
    }
}

/// The first registered device with this name; earlier devices shadow later
/// ones of the same name.
pub open spec fn lookup(devices: Seq<DeviceView>, name: Seq<char>) -> Option<int> {
    lookup_from(devices, name, 0)
}

/// The lookup finds the first device with the name, and finds none only
/// when no device has it.
pub proof fn lemma_lookup_from(devices: Seq<DeviceView>, name: Seq<char>, j: int)
    requires
        0 <= j,
    ensures
        lookup_from(devices, name, j) matches Some(i) ==> {
            &&& j <= i < devices.len()
            &&& devices[i].name == name
            &&& forall|k: int| j <= k < i ==> devices[k].name != name
        },
        lookup_from(devices, name, j) is None ==> forall|k: int|
            j <= k < devices.len() ==> devices[k].name != name,
    decreases devices.len() - j,
{
    if j < devices.len() && devices[j].name != name {
        lemma_lookup_from(devices, name, j + 1);
    }
}

/// Where the first device named `name` stands in the registry.
pub fn find_device(devices: &Vec<RokuDevice>, name: &str) -> (r: Option<usize>)
    ensures
        match r {
            Some(i) => lookup(registry_view(devices@), name@) == Some(i as int),
            None => lookup(registry_view(devices@), name@) is None,
        },
{
    let ghost devs = registry_view(devices@);
    let mut i: usize = 0;
    while i < devices.len()
        invariant
            i <= devices@.len(),
            devs == registry_view(devices@),
            lookup_from(devs, name@, 0) == lookup_from(devs, name@, i as int),
        decreases devices@.len() - i,
    {
        assert(devs[i as int].name == devices@[i as int].name@);
        if same_text(devices[i].name.as_str(), name) {
            return Some(i);
        }
        i += 1;
    }
    None
}

/// Device names joined by commas, in registry order.
pub open spec fn join_names(devices: Seq<DeviceView>) -> Seq<char>
    decreases devices.len(),
{
    if devices.len() == 0 {
        Seq::empty()
    } else if devices.len() == 1 {
        devices[0].name
    } else {
        join_names(devices.drop_last()) + seq![','] + devices.last().name
    }
}

/// The registered names, comma-separated, with no trailing comma.
pub fn device_names(devices: &Vec<RokuDevice>) -> (r: String)
    ensures
        r@ == join_names(registry_view(devices@)),
{
    let ghost devs = registry_view(devices@);
    let mut out = String::new();
    let mut i: usize = 0;
    assert(devs.subrange(0, 0) =~= Seq::<DeviceView>::empty());
    while i < devices.len()
        invariant
            i <= devices@.len(),
            devs == registry_view(devices@),
            out@ == join_names(devs.subrange(0, i as int)),
        decreases devices@.len() - i,
    {
        let ghost next = devs.subrange(0, i + 1);
        assert(next.drop_last() =~= devs.subrange(0, i as int));
        assert(next.last() == devices@[i as int]@);
        if i > 0 {
            out.append(",");
            proof {
                reveal_strlit(",");
            }
            assert(",".view() =~= seq![',']);
        } else {
            assert(next.len() == 1);
        }
        out.append(devices[i].name.as_str());
        i += 1;
    }
    assert(devs.subrange(0, i as int) =~= devs);
    out
}

/// The command that presses `action` on a device.
pub open spec fn keypress_command_spec(action: Seq<char>) -> Seq<char> {
    "POST /keypress/"@ + action + " HTTP/1.1\r\n\r\n"@
}

/// The command sent to a device to press the key named `action`.
pub fn keypress_command(action: &str) -> (r: String)
    ensures
        r@ == keypress_command_spec(action@),
{
    String::from_str("POST /keypress/").concat(action).concat(" HTTP/1.1\r\n\r\n")
}

/// The content type of a static asset, by the extension of its path.
pub open spec fn content_type_for(path: Seq<char>) -> Seq<char> {
    let ext = split_char(path, '.').last();
    if ext == "css"@ {
        "text/css"@
    } else if ext == "js"@ {
        "text/javascript"@
    } else {
        "text/plain"@
    }
}

/// The content type of the asset at `path`.
pub fn content_type(path: &str) -> (r: &'static str)
    ensures
        r@ == content_type_for(path@),
{
    let pieces = split_str(path, '.');
    proof {
        crate::text::lemma_split_char_nonempty(path@, '.');
    }
    let last = pieces[pieces.len() - 1].as_str();
    assert(last@ == split_char(path@, '.').last());
    if same_text(last, "css") {
        "text/css"
    } else if same_text(last, "js") {
        "text/javascript"
    } else {
        "text/plain"
    }
}

/// What the gateway does about a request.
#[derive(Debug)]
pub enum Action {
    /// Answer at once.
    Respond(Response),
    /// Open a connection to `address:port`, send `command`, then answer
    /// with `relay_response` of the outcome.
    Relay { address: Ipv4Address, port: u16, command: String },
    /// Read the static file at `file`, then answer with `asset_response`.
    ServeAsset { file: String, content_type: String },
}

pub enum ActionView {
    Respond(ResponseView),
    Relay { address: Ipv4Address, port: u16, command: Seq<char> },
    ServeAsset { file: Seq<char>, content_type: Seq<char> },
}

impl View for Action {
    type V = ActionView;

    open spec fn view(&self) -> ActionView {
        match self {
            Action::Respond(r) => ActionView::Respond(r@),
            Action::Relay { address, port, command } => ActionView::Relay {
                address: *address,
                port: *port,
                command: command@,
            },
            Action::ServeAsset { file, content_type } => ActionView::ServeAsset {
                file: file@,
                content_type: content_type@,
            },
        }
    }
}

/// What a `PUT /keypress` with this body does.
pub open spec fn keypress_action(body: Seq<char>, devices: Seq<DeviceView>) -> ActionView {
    match keypress_form(body) {
        FormView::Malformed(bad) => ActionView::Respond(
            plain_response(400, "Invalid PUT parameter: "@ + bad, Seq::empty()),
        ),
        FormView::Missing => ActionView::Respond(
            plain_response(400, "Incorrect parameters for keypress call!"@, Seq::empty()),
        ),
        FormView::Parsed { device, action } => match lookup(devices, device) {
            None => ActionView::Respond(
                plain_response(400, "No device found with name: "@ + device, Seq::empty()),
            ),
            Some(i) => ActionView::Relay {
                address: devices[i].address,
                port: 8060,
                command: keypress_command_spec(action),
            },
        },
    }
}

/// The routing table.
pub open spec fn route_spec(req: RequestView, devices: Seq<DeviceView>) -> ActionView {
    if req.method == "PUT"@ && req.path == "/keypress"@ {
        keypress_action(req.body, devices)
    } else if req.method == "GET"@ && req.path == "/"@ {
        ActionView::ServeAsset {
            file: "static/index.html"@,
            content_type: "text/html; charset=utf-8"@,
        }
    } else if req.method == "GET"@ && req.path == "/devices"@ {
        ActionView::Respond(plain_response(200, "OK"@, join_names(devices)))
    } else if req.method == "GET"@ {
        if contains_seq(req.path, ".."@) {
            ActionView::Respond(plain_response(400, "Bad Request"@, Seq::empty()))
        } else {
            ActionView::ServeAsset { file: "static"@ + req.path, content_type: content_type_for(req.path) }
        }
    } else {
        ActionView::Respond(plain_response(404, "Not Found"@, Seq::empty()))
    }
}

/// The action for a `PUT /keypress` with this body.
fn keypress(body: &str, devices: &Vec<RokuDevice>) -> (r: Action)
    ensures
        r@ == keypress_action(body@, registry_view(devices@)),
{
    match parse_keypress_form(body) {
        Err(FormError::MalformedParameter(bad)) => Action::Respond(
            Response::status_only(400, String::from_str("Invalid PUT parameter: ").concat(bad.as_str()).as_str()),
        ),
        Err(FormError::MissingParameter) => Action::Respond(
            Response::status_only(400, "Incorrect parameters for keypress call!"),
        ),
        Ok(form) => match find_device(devices, form.device.as_str()) {
            None => Action::Respond(
                Response::status_only(
                    400,
                    String::from_str("No device found with name: ").concat(form.device.as_str()).as_str(),
                ),
            ),
            Some(i) => {
                proof {
                    lemma_lookup_from(registry_view(devices@), form.device@, 0);
                }
                assert(registry_view(devices@)[i as int] == devices@[i as int]@);
                Action::Relay {
                    address: devices[i].address,
                    port: DEVICE_PORT,
                    command: keypress_command(form.action.as_str()),
                }
            },
        },
    }
}

/// Routes a decoded request against the registry.
pub fn route(req: &Request, devices: &Vec<RokuDevice>) -> (r: Action)
    ensures
        r@ == route_spec(req@, registry_view(devices@)),
{
    let method = req.method.as_str();
    let path = req.path.as_str();
    let is_get = same_text(method, "GET");
    if same_text(method, "PUT") && same_text(path, "/keypress") {
        keypress(req.body.as_str(), devices)
    } else if is_get && same_text(path, "/") {
        Action::ServeAsset {
            file: String::from_str("static/index.html"),
            content_type: String::from_str("text/html; charset=utf-8"),
        }
    } else if is_get && same_text(path, "/devices") {
        Action::Respond(Response::plain(200, String::from_str("OK"), device_names(devices)))
    } else if is_get {
        if contains_str(path, "..") {
            Action::Respond(Response::status_only(400, "Bad Request"))
        } else {
            Action::ServeAsset {
                file: String::from_str("static").concat(path),
                content_type: String::from_str(content_type(path)),
            }
        }
    } else {
        Action::Respond(Response::status_only(404, "Not Found"))
    }
}

/// Well-formed pairs read without error.
proof fn lemma_well_formed_pairs_read(pairs: Seq<Seq<char>>, k: int)
    requires
        0 <= k <= pairs.len(),
        forall|j: int| 0 <= j < k ==> pair_well_formed(pairs[j]),
    ensures
        read_pairs(pairs.subrange(0, k)) is Ok,
    decreases k,
{
    if k > 0 {
        assert(pairs.subrange(0, k).drop_last() =~= pairs.subrange(0, k - 1));
        lemma_well_formed_pairs_read(pairs, k - 1);
    }
}

/// A key-press body is refused with status 400 at its first malformed pair
/// (one without `=`, with more than one, or with an empty side), and the
/// status message echoes that pair.
pub proof fn lemma_malformed_pair_rejected(
    req: RequestView,
    devices: Seq<DeviceView>,
    k: int,
)
    requires
        req.method == "PUT"@,
        req.path == "/keypress"@,
        0 <= k < split_char(req.body, '&').len(),
        !pair_well_formed(split_char(req.body, '&')[k]),
        forall|j: int| 0 <= j < k ==> pair_well_formed(split_char(req.body, '&')[j]),
    ensures
        route_spec(req, devices) == ActionView::Respond(
            plain_response(
                400,
                "Invalid PUT parameter: "@ + split_char(req.body, '&')[k],
                Seq::empty(),
            ),
        ),
{
    let pairs = split_char(req.body, '&');
    lemma_well_formed_pairs_read(pairs, k);
    assert(pairs.subrange(0, k + 1).drop_last() =~= pairs.subrange(0, k));
    lemma_malformed_pair_stays(pairs, k + 1, pairs[k]);
}

/// A key press for a device name that no registered device has is refused
/// with status 400, and the message names the device.
pub proof fn lemma_unknown_device_rejected(
    req: RequestView,
    devices: Seq<DeviceView>,
    device: Seq<char>,
    action: Seq<char>,
)
    requires
        req.method == "PUT"@,
        req.path == "/keypress"@,
        keypress_form(req.body) == (FormView::Parsed { device, action }),
        forall|k: int| 0 <= k < devices.len() ==> devices[k].name != device,
    ensures
        route_spec(req, devices) == ActionView::Respond(
            plain_response(400, "No device found with name: "@ + device, Seq::empty()),
        ),
{
    lemma_lookup_from(devices, device, 0);
}

/// A key press for a name that exactly one registered device has is relayed
/// to that device's address, on the device port, as the command for the key.
pub proof fn lemma_known_device_targeted(
    req: RequestView,
    devices: Seq<DeviceView>,
    device: Seq<char>,
    action: Seq<char>,
    i: int,
)
    requires
        req.method == "PUT"@,
        req.path == "/keypress"@,
        keypress_form(req.body) == (FormView::Parsed { device, action }),
        0 <= i < devices.len(),
        devices[i].name == device,
        forall|k: int| 0 <= k < devices.len() && k != i ==> devices[k].name != device,
    ensures
        route_spec(req, devices) == (ActionView::Relay {
            address: devices[i].address,
            port: 8060,
            command: keypress_command_spec(action),
        }),
{
    lemma_lookup_from(devices, device, 0);
}

/// `GET /devices` answers 200 with the registered names comma-joined in
/// registry order; an empty registry gives an empty body.
pub proof fn lemma_device_listing(req: RequestView, devices: Seq<DeviceView>)
    requires
        req.method == "GET"@,
        req.path == "/devices"@,
    ensures
        route_spec(req, devices) == ActionView::Respond(
            plain_response(200, "OK"@, join_names(devices)),
        ),
        devices.len() == 0 ==> join_names(devices) == Seq::<char>::empty(),
{
    reveal_strlit("PUT");
    reveal_strlit("GET");
    reveal_strlit("/");
    reveal_strlit("/devices");
    assert("/"@.len() == 1);
    assert("/devices"@.len() == 8);
    assert("PUT"@[0] == 'P');
    assert("GET"@[0] == 'G');
}

/// A `GET` whose path contains `..` is refused with status 400 and never
/// turns into a file read.
pub proof fn lemma_traversal_rejected(req: RequestView, devices: Seq<DeviceView>)
    requires
        req.method == "GET"@,
        contains_seq(req.path, ".."@),
    ensures
        route_spec(req, devices) == ActionView::Respond(
            plain_response(400, "Bad Request"@, Seq::empty()),
        ),
{
    reveal_strlit("PUT");
    reveal_strlit("GET");
    reveal_strlit("/");
    reveal_strlit("/devices");
    reveal_strlit("..");
    let i = choose|i: int| crate::text::occurs_at(req.path, ".."@, i);
    assert(req.path.subrange(i, i + 2)[0] == '.');
    assert(req.path[i] == '.');
    assert("PUT"@[0] == 'P');
    assert("GET"@[0] == 'G');
    assert("/"@.len() == 1);
    if req.path == "/devices"@ {
        assert(false);
    }
}

} // verus!
