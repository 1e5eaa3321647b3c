//! ADB device management: what the shell learns from `adb` output and how
//! it keeps track of the selected device.
//!
//! Running `adb` is left to the caller; each operation here takes the
//! output of the command it needs (or the error text when it could not be
//! run) and decides the outcome.
use vstd::prelude::*;
use crate::text::{
    char_views, contains, contains_chars, lines, lowercase, parse_u32_spec, push_str,
    split_lines, split_words, starts_with, starts_with_chars, str_contains, str_eq,
    string_from, to_chars, to_lower, trim, trim_range, words, parse_u32_range, from_chars,
};

verus! {

/// Connection state reported by `adb devices`.
#[derive(Debug, Clone, PartialEq, Eq)]
pub enum DeviceState {
    Device,
    Offline,
    Unauthorized,
    Unknown(String),
}

/// State text as a sum: the three known states, or the text itself.
pub enum StateView {
    Device,
    Offline,
    Unauthorized,
    Unknown(Seq<char>),
}

impl View for DeviceState {
    type V = StateView;

    open spec fn view(&self) -> StateView {
        match self {
            DeviceState::Device => StateView::Device,
            DeviceState::Offline => StateView::Offline,
            DeviceState::Unauthorized => StateView::Unauthorized,
            DeviceState::Unknown(s) => StateView::Unknown(s@),
        }
    }
}

pub open spec fn state_of(s: Seq<char>) -> StateView {
    if s == "device"@ {
        StateView::Device
    } else if s == "offline"@ {
        StateView::Offline
    } else if s == "unauthorized"@ {
        StateView::Unauthorized
    } else {
        StateView::Unknown(s)
    }
}

pub open spec fn state_text(s: StateView) -> Seq<char> {
    match s {
        StateView::Device => "device"@,
        StateView::Offline => "offline"@,
        StateView::Unauthorized => "unauthorized"@,
        StateView::Unknown(t) => t,
    }
}

impl DeviceState {
    /// The state named by `adb devices`.
    pub fn from_str(s: &str) -> (r: DeviceState)
        ensures
            r@ == state_of(s@),
    {
        if str_eq(s, "device") {
            DeviceState::Device
        } else if str_eq(s, "offline") {
            DeviceState::Offline
        } else if str_eq(s, "unauthorized") {
            DeviceState::Unauthorized
        } else {
            DeviceState::Unknown(string_from(s))
        }
    }

    /// The state as `adb devices` writes it.
    pub fn as_str(&self) -> (s: &str)
        ensures
            s@ == state_text(self@),
    {
        match self {
            DeviceState::Device => "device",
            DeviceState::Offline => "offline",
            DeviceState::Unauthorized => "unauthorized",
            DeviceState::Unknown(t) => t.as_str(),
        }
    }
}

/// Reading a state's text back gives the same state, for every state text
/// other than the three reserved names.
pub proof fn lemma_state_text_roundtrip(s: StateView)
    requires
        s matches StateView::Unknown(t) ==> t != "device"@ && t != "offline"@ && t
            != "unauthorized"@,
    ensures
        state_of(state_text(s)) == s,
{
    reveal_strlit("device");
    reveal_strlit("offline");
    reveal_strlit("unauthorized");
    assert("offline"@ != "device"@) by {
        assert("offline"@[0] != "device"@[0]);
    }
    assert("unauthorized"@ != "device"@ && "unauthorized"@ != "offline"@) by {
        assert("unauthorized"@.len() != "device"@.len());
        assert("unauthorized"@.len() != "offline"@.len());
    }
}

#[derive(Debug, Clone, Copy, PartialEq, Eq, Structural)]
pub enum ConnectionType {
    Usb,
    Tcp,
}

/// A device line of `adb devices -l`.
#[derive(Debug, Clone)]
pub struct Device {
    pub serial: String,
    pub state: DeviceState,
    pub model: String,
    pub product: String,
}

pub struct DeviceView {
    pub serial: Seq<char>,
    pub state: StateView,
    pub model: Seq<char>,
    pub product: Seq<char>,
}

impl View for Device {
    type V = DeviceView;

    open spec fn view(&self) -> DeviceView {
        DeviceView {
            serial: self.serial@,
            state: self.state@,
            model: self.model@,
            product: self.product@,
        }
    }
}

/// Network devices have `host:port` serials.
pub open spec fn connection_of(serial: Seq<char>) -> ConnectionType {
    if serial.contains(':') {
        ConnectionType::Tcp
    } else {
        ConnectionType::Usb
    }
}

/// `MODEL [USB] (SERIAL)`, falling back to the product, then the serial,
/// when the model is unknown.
pub open spec fn display_name_of(d: DeviceView) -> Seq<char> {
    let name = if d.model.len() > 0 {
        d.model
    } else if d.product.len() > 0 {
        d.product
    } else {
        d.serial
    };
    let conn = match connection_of(d.serial) {
        ConnectionType::Usb => "USB"@,
        ConnectionType::Tcp => "TCP"@,
    };
    name + " ["@ + conn + "] ("@ + d.serial + ")"@
}

fn has_colon(s: &str) -> (b: bool)
    ensures
        b == s@.contains(':'),
{
    let v = to_chars(s);
    let mut i: usize = 0;
    while i < v.len()
        invariant
            i <= v@.len(),
            v@ == s@,
            forall|k: int| 0 <= k < i ==> v@[k] != ':',
        decreases v@.len() - i,
    {
        if v[i] == ':' {
            assert(v@[i as int] == ':');
            return true;
        }
        i = i + 1;
    }
    false
}

impl Device {
    /// A copy of the device.
    pub fn clone_device(&self) -> (d: Device)
        ensures
            d@ == self@,
    {
        let state = match &self.state {
            DeviceState::Device => DeviceState::Device,
            DeviceState::Offline => DeviceState::Offline,
            DeviceState::Unauthorized => DeviceState::Unauthorized,
            DeviceState::Unknown(s) => DeviceState::Unknown(s.clone()),
        };
        Device {
            serial: self.serial.clone(),
            state,
            model: self.model.clone(),
            product: self.product.clone(),
        }
    }

    /// TCP when the serial is `host:port`, USB otherwise.
    pub fn connection_type(&self) -> (c: ConnectionType)
        ensures
            c == connection_of(self.serial@),
    {
        if has_colon(self.serial.as_str()) {
            ConnectionType::Tcp
        } else {
            ConnectionType::Usb
        }
    }

    /// Ready for commands (`device` state).
    pub fn is_online(&self) -> (b: bool)
        ensures
            b == (self.state@ == StateView::Device),
    {
        match self.state {
            DeviceState::Device => true,
            _ => false,
        }
    }

    /// A human-readable name such as `Pixel_7 [USB] (1A2B3C)`.
    pub fn display_name(&self) -> (s: String)
        ensures
            s@ == display_name_of(self@),
    {
        let mut s = if !self.model.as_str().is_empty() {
            self.model.clone()
        } else if !self.product.as_str().is_empty() {
            self.product.clone()
        } else {
            self.serial.clone()
        };
        push_str(&mut s, " [");
        match self.connection_type() {
            ConnectionType::Usb => push_str(&mut s, "USB"),
            ConnectionType::Tcp => push_str(&mut s, "TCP"),
        }
        push_str(&mut s, "] (");
        push_str(&mut s, self.serial.as_str());
        push_str(&mut s, ")");
        s
    }
}

// ---------------------------------------------------------------------------
// `adb devices -l`
// ---------------------------------------------------------------------------

/// The value of the last `prefix…` word among `parts[2..upto]` (empty if
/// none).
pub open spec fn last_property(parts: Seq<Seq<char>>, prefix: Seq<char>, upto: int) -> Seq<char>
    decreases upto,
{
    if upto <= 2 || upto > parts.len() {
        Seq::empty()
    } else if starts_with(parts[upto - 1], prefix) {
        parts[upto - 1].subrange(prefix.len() as int, parts[upto - 1].len() as int)
    } else {
        last_property(parts, prefix, upto - 1)
    }
}

/// The device a line of `adb devices -l` describes: serial, state, then
/// optional `key:value` properties. Lines with fewer than two words are no
/// device.
pub open spec fn device_of_line(line: Seq<char>) -> Option<DeviceView> {
    let parts = words(trim(line));
    if parts.len() < 2 {
        None
    } else {
        Some(
            DeviceView {
                serial: parts[0],
                state: state_of(parts[1]),
                model: last_property(parts, "model:"@, parts.len() as int),
                product: last_property(parts, "product:"@, parts.len() as int),
            },
        )
    }
}

/// The devices listed after the header line, in order.
pub open spec fn devices_in(ls: Seq<Seq<char>>, from: int) -> Seq<DeviceView>
    decreases ls.len() - from,
{
    if from < 1 || from >= ls.len() {
        Seq::empty()
    } else {
        match device_of_line(ls[from]) {
            Some(d) => seq![d] + devices_in(ls, from + 1),
            None => devices_in(ls, from + 1),
        }
    }
}

/// The devices `adb devices -l` lists in `out`.
pub open spec fn parse_device_list(out: Seq<char>) -> Seq<DeviceView> {
    devices_in(lines(out), 1)
}

pub open spec fn device_views(v: Seq<Device>) -> Seq<DeviceView> {
    v.map_values(|d: Device| d@)
}

fn strip_prefix_at(parts: &Vec<Vec<char>>, k: usize, prefix: &str) -> (r: Option<String>)
    requires
        k < parts@.len(),
    ensures
        match r {
            Some(v) => starts_with(parts@[k as int]@, prefix@) && v@ == parts@[k as int]@.subrange(
                prefix@.len() as int,
                parts@[k as int]@.len() as int,
            ),
            None => !starts_with(parts@[k as int]@, prefix@),
        },
{
    let p = to_chars(prefix);
    if starts_with_chars(&parts[k], &p) {
        let w = &parts[k];
        let mut s = String::new();
        let mut i: usize = p.len();
        while i < w.len()
            invariant
                p@.len() <= i <= w@.len(),
                s@ == w@.subrange(p@.len() as int, i as int),
            decreases w@.len() - i,
        {
            crate::text::push_char(&mut s, w[i]);
            assert(w@.subrange(p@.len() as int, i + 1) =~= w@.subrange(p@.len() as int, i as int).push(
                w@[i as int],
            ));
            i = i + 1;
        }
        Some(s)
    } else {
        None
    }
}

fn last_property_exec(parts: &Vec<Vec<char>>, prefix: &str) -> (r: String)
    ensures
        r@ == last_property(char_views(parts@), prefix@, parts@.len() as int),
{
    let mut upto = parts.len();
    while upto > 2
        invariant
            upto <= parts@.len(),
            last_property(char_views(parts@), prefix@, parts@.len() as int) == last_property(
                char_views(parts@),
                prefix@,
                upto as int,
            ),
        decreases upto,
    {
        match strip_prefix_at(parts, upto - 1, prefix) {
            Some(v) => {
                return v;
            },
            None => {},
        }
        upto = upto - 1;
    }
    String::new()
}

fn device_of_line_exec(line: &Vec<char>) -> (r: Option<Device>)
    ensures
        match r {
            Some(d) => device_of_line(line@) == Some(d@),
            None => device_of_line(line@) is None,
        },
{
    let (a, b) = trim_range(line, 0, line.len());
    assert(line@.subrange(0, line@.len() as int) =~= line@);
    let mut t: Vec<char> = Vec::new();
    let mut i: usize = a;
    while i < b
        invariant
            a <= i <= b <= line@.len(),
            t@ == line@.subrange(a as int, i as int),
        decreases b - i,
    {
        t.push(line[i]);
        assert(line@.subrange(a as int, i + 1) =~= line@.subrange(a as int, i as int).push(
            line@[i as int],
        ));
        i = i + 1;
    }
    let parts = split_words(&t);
    if parts.len() < 2 {
        return None;
    }
    let serial = from_chars(parts[0].as_slice());
    let state_text = from_chars(parts[1].as_slice());
    let state = DeviceState::from_str(state_text.as_str());
    let model = last_property_exec(&parts, "model:");
    let product = last_property_exec(&parts, "product:");
    Some(Device { serial, state, model, product })
}

/// The devices that `adb devices -l` printed as `out`.
pub fn parse_devices(out: &str) -> (r: Vec<Device>)
    ensures
        device_views(r@) == parse_device_list(out@),
{
    let chars = to_chars(out);
    let ls = split_lines(&chars);
    let ghost lv = char_views(ls@);
    let mut r: Vec<Device> = Vec::new();
    if ls.len() <= 1 {
        assert(device_views(r@) =~= Seq::<DeviceView>::empty());
        return r;
    }
    let mut i: usize = 1;
    while i < ls.len()
        invariant
            1 <= i <= ls@.len(),
            lv == char_views(ls@),
            lv == lines(out@),
            device_views(r@) + devices_in(lv, i as int) == parse_device_list(out@),
        decreases ls@.len() - i,
    {
        let ghost before = device_views(r@);
        match device_of_line_exec(&ls[i]) {
            Some(d) => {
                r.push(d);
                assert(device_views(r@) =~= before.push(r@.last()@));
                assert(before + devices_in(lv, i as int) =~= device_views(r@) + devices_in(
                    lv,
                    i + 1,
                ));
            },
            None => {},
        }
        i = i + 1;
    }
    assert(devices_in(lv, i as int) =~= Seq::<DeviceView>::empty());
    assert(device_views(r@) + Seq::<DeviceView>::empty() =~= device_views(r@));
    r
}

// ---------------------------------------------------------------------------
// Process ids and foreground app
// ---------------------------------------------------------------------------

/// The PID `pidof` printed, if its whole (trimmed) output is one number.
pub open spec fn pid_from_pidof_spec(out: Seq<char>) -> Option<u32> {
    parse_u32_spec(trim(out))
}

/// First `ps` line that mentions the package and whose second column is a
/// number.
pub open spec fn pid_from_ps_lines(ls: Seq<Seq<char>>, package: Seq<char>, from: int) -> Option<u32>
    decreases ls.len() - from,
{
    if from < 0 || from >= ls.len() {
        None
    } else {
        let parts = words(ls[from]);
        if parts.len() >= 2 && contains(ls[from], package) && parse_u32_spec(parts[1]) is Some {
            parse_u32_spec(parts[1])
        } else {
            pid_from_ps_lines(ls, package, from + 1)
        }
    }
}

pub open spec fn pid_from_ps_spec(out: Seq<char>, package: Seq<char>) -> Option<u32> {
    pid_from_ps_lines(lines(out), package, 0)
}

/// The package of a `pkg/.Activity` token, if the part before the first
/// `/` looks like a package name (contains a dot).
pub open spec fn token_package(tok: Seq<char>) -> Option<Seq<char>> {
    if tok.contains('/') {
        let p = tok.subrange(0, first_index_of(tok, '/'));
        if p.contains('.') {
            Some(p)
        } else {
            None
        }
    } else {
        None
    }
}

/// Index of the first `c` in `s` (the length if none).
pub open spec fn first_index_of(s: Seq<char>, c: char) -> int
    decreases s.len(),
{
    if s.len() == 0 {
        0
    } else if s[0] == c {
        0
    } else {
        1 + first_index_of(s.drop_first(), c)
    }
}

pub open spec fn package_in_tokens(ts: Seq<Seq<char>>, from: int) -> Option<Seq<char>>
    decreases ts.len() - from,
{
    if from < 0 || from >= ts.len() {
        None
    } else if token_package(ts[from]) is Some {
        token_package(ts[from])
    } else {
        package_in_tokens(ts, from + 1)
    }
}

/// The resumed activity's package in `dumpsys activity activities` output:
/// the first package-like `pkg/…` token on a line that mentions
/// `mResumedActivity` or `topResumedActivity`.
pub open spec fn foreground_in_lines(ls: Seq<Seq<char>>, from: int) -> Option<Seq<char>>
    decreases ls.len() - from,
{
    if from < 0 || from >= ls.len() {
        None
    } else if (contains(ls[from], "mResumedActivity"@) || contains(
        ls[from],
        "topResumedActivity"@,
    )) && package_in_tokens(words(ls[from]), 0) is Some {
        package_in_tokens(words(ls[from]), 0)
    } else {
        foreground_in_lines(ls, from + 1)
    }
}

pub open spec fn foreground_spec(out: Seq<char>) -> Option<Seq<char>> {
    foreground_in_lines(lines(out), 0)
}

pub open spec fn opt_text(o: Option<String>) -> Option<Seq<char>> {
    match o {
        Some(s) => Some(s@),
        None => None,
    }
}

fn trimmed(s: &str) -> (r: Vec<char>)
    ensures
        r@ == trim(s@),
{
    let v = to_chars(s);
    let (a, b) = trim_range(&v, 0, v.len());
    assert(v@.subrange(0, v@.len() as int) =~= v@);
    let mut t: Vec<char> = Vec::new();
    let mut i: usize = a;
    while i < b
        invariant
            a <= i <= b <= v@.len(),
            t@ == v@.subrange(a as int, i as int),
        decreases b - i,
    {
        t.push(v[i]);
        assert(v@.subrange(a as int, i + 1) =~= v@.subrange(a as int, i as int).push(v@[i as int]));
        i = i + 1;
    }
    t
}

fn token_package_exec(tok: &Vec<char>) -> (r: Option<String>)
    ensures
        opt_text(r) == token_package(tok@),
{
    let mut i: usize = 0;
    assert(tok@.subrange(0, tok@.len() as int) =~= tok@);
    while i < tok.len() && tok[i] != '/'
        invariant
            i <= tok@.len(),
            forall|k: int| 0 <= k < i ==> tok@[k] != '/',
            first_index_of(tok@, '/') == i + first_index_of(tok@.subrange(i as int, tok@.len() as int), '/'),
        decreases tok@.len() - i,
    {
        assert(tok@.subrange(i as int, tok@.len() as int).drop_first() =~= tok@.subrange(
            i + 1,
            tok@.len() as int,
        ));
        i = i + 1;
    }
    if i == tok.len() {
        assert(!tok@.contains('/'));
        return None;
    }
    assert(tok@[i as int] == '/');
    assert(tok@.contains('/'));
    assert(first_index_of(tok@, '/') == i);
    let mut has_dot = false;
    let mut k: usize = 0;
    while k < i
        invariant
            k <= i < tok@.len(),
            has_dot == exists|j: int| 0 <= j < k && tok@[j] == '.',
        decreases i - k,
    {
        if tok[k] == '.' {
            has_dot = true;
        }
        k = k + 1;
    }
    let ghost p = tok@.subrange(0, i as int);
    if has_dot {
        let r = crate::text::string_of_range(tok, 0, i);
        assert(p.contains('.')) by {
            let j = choose|j: int| 0 <= j < i && tok@[j] == '.';
            assert(p[j] == '.');
        }
        Some(r)
    } else {
        assert(!p.contains('.')) by {
            if p.contains('.') {
                let j = choose|j: int| 0 <= j < p.len() && p[j] == '.';
                assert(tok@[j] == '.');
            }
        }
        None
    }
}

fn copy_state(s: &DeviceState) -> (r: DeviceState)
    ensures
        r@ == s@,
{
    match s {
        DeviceState::Device => DeviceState::Device,
        DeviceState::Offline => DeviceState::Offline,
        DeviceState::Unauthorized => DeviceState::Unauthorized,
        DeviceState::Unknown(t) => DeviceState::Unknown(t.clone()),
    }
}

fn copy_device(d: &Device) -> (r: Device)
    ensures
        r@ == d@,
{
    Device {
        serial: d.serial.clone(),
        state: copy_state(&d.state),
        model: d.model.clone(),
        product: d.product.clone(),
    }
}

fn resumed_line(line: &Vec<char>) -> (b: bool)
    ensures
        b == (contains(line@, "mResumedActivity"@) || contains(line@, "topResumedActivity"@)),
{
    let a = to_chars("mResumedActivity");
    let c = to_chars("topResumedActivity");
    contains_chars(line, &a) || contains_chars(line, &c)
}

fn package_in_tokens_exec(toks: &Vec<Vec<char>>) -> (r: Option<String>)
    ensures
        opt_text(r) == package_in_tokens(char_views(toks@), 0),
{
    let ghost tv = char_views(toks@);
    let mut k: usize = 0;
    while k < toks.len()
        invariant
            k <= toks@.len(),
            tv == char_views(toks@),
            package_in_tokens(tv, k as int) == package_in_tokens(tv, 0),
        decreases toks@.len() - k,
    {
        assert(tv[k as int] == toks@[k as int]@);
        match token_package_exec(&toks[k]) {
            Some(p) => {
                return Some(p);
            },
            None => {},
        }
        k = k + 1;
    }
    None
}

fn foreground_of(out: &str) -> (r: Option<String>)
    ensures
        opt_text(r) == foreground_spec(out@),
{
    let chars = to_chars(out);
    let ls = split_lines(&chars);
    let ghost lv = char_views(ls@);
    let mut i: usize = 0;
    while i < ls.len()
        invariant
            i <= ls@.len(),
            lv == char_views(ls@),
            lv == lines(out@),
            foreground_in_lines(lv, i as int) == foreground_spec(out@),
        decreases ls@.len() - i,
    {
        assert(lv[i as int] == ls@[i as int]@);
        if resumed_line(&ls[i]) {
            let toks = split_words(&ls[i]);
            assert(char_views(toks@) == words(lv[i as int]));
            match package_in_tokens_exec(&toks) {
                Some(p) => {
                    assert(contains(lv[i as int], "mResumedActivity"@) || contains(
                        lv[i as int],
                        "topResumedActivity"@,
                    ));
                    assert(foreground_in_lines(lv, i as int) == package_in_tokens(
                        words(lv[i as int]),
                        0,
                    ));
                    return Some(p);
                },
                None => {},
            }
        }
        i = i + 1;
    }
    None
}

/// Where `adb` is and which device the shell talks to.
pub struct AdbClient {
    adb_path: String,
    pub selected_device: Option<Device>,
    devices: Vec<Device>,
}

pub open spec fn opt_device(o: Option<Device>) -> Option<DeviceView> {
    match o {
        Some(d) => Some(d@),
        None => None,
    }
}

/// The serial `adb connect` gives a network device: the address, with
/// `:5555` added when no port is written.
pub open spec fn connect_serial(address: Seq<char>) -> Seq<char> {
    if address.contains(':') {
        address
    } else {
        address + ":5555"@
    }
}

/// The selection `sel` after choosing by `serial` among the listed devices
/// `ds`: the first listed device with that serial, or `prev` when none has
/// it.
pub open spec fn selected_by_serial(
    ds: Seq<DeviceView>,
    serial: Seq<char>,
    prev: Option<DeviceView>,
    sel: Option<DeviceView>,
) -> bool {
    ||| exists|i: int| first_with_serial(ds, serial, i) && sel == Some(ds[i])
    ||| (forall|i: int| 0 <= i < ds.len() ==> (#[trigger] ds[i]).serial != serial) && sel == prev
}

/// `d` is the first device in `ds` with serial `serial`.
pub open spec fn first_with_serial(ds: Seq<DeviceView>, serial: Seq<char>, i: int) -> bool {
    0 <= i < ds.len() && ds[i].serial == serial && forall|j: int|
        0 <= j < i ==> (#[trigger] ds[j]).serial != serial
}

pub open spec fn online_pred() -> spec_fn(DeviceView) -> bool {
    |d: DeviceView| d.state == StateView::Device
}

/// How many of the devices are online.
pub open spec fn online_count(ds: Seq<DeviceView>) -> nat {
    ds.filter(online_pred()).len()
}

/// The first online device.
pub open spec fn first_online(ds: Seq<DeviceView>) -> DeviceView {
    ds.filter(online_pred())[0]
}

proof fn lemma_online_step(ds: Seq<DeviceView>, i: int)
    requires
        0 <= i < ds.len(),
    ensures
        ds.take(i + 1).filter(online_pred()) == if ds[i].state == StateView::Device {
            ds.take(i).filter(online_pred()).push(ds[i])
        } else {
            ds.take(i).filter(online_pred())
        },
{
    reveal_with_fuel(Seq::filter, 1);
    assert(ds.take(i + 1).drop_last() =~= ds.take(i));
}

/// The reply of a server command: stdout then stderr, trimmed, or
/// `fallback` if both are empty.
pub open spec fn server_message(stdout: Seq<char>, stderr: Seq<char>, fallback: Seq<char>) -> Seq<char> {
    let m = trim(stdout) + trim(stderr);
    if m.len() == 0 {
        fallback
    } else {
        m
    }
}

/// What a finished `adb` command printed.
pub struct CommandOutput {
    pub stdout: String,
    pub stderr: String,
    pub success: bool,
}

fn server_reply(out: &CommandOutput, fallback: &str) -> (r: (bool, String))
    ensures
        r.0 == out.success,
        r.1@ == server_message(out.stdout@, out.stderr@, fallback@),
{
    let a = trimmed(out.stdout.as_str());
    let b = trimmed(out.stderr.as_str());
    let mut m = from_chars(a.as_slice());
    let bs = from_chars(b.as_slice());
    push_str(&mut m, bs.as_str());
    if m.as_str().is_empty() {
        (out.success, string_from(fallback))
    } else {
        (out.success, m)
    }
}

fn error_reply(prefix: &str, e: &str) -> (r: (bool, String))
    ensures
        r.0 == false,
        r.1@ == prefix@ + e@,
{
    let mut m = string_from(prefix);
    push_str(&mut m, e);
    (false, m)
}

impl AdbClient {
    /// A client that runs the `adb` found at `adb_path`, with no device
    /// known or selected.
    pub fn new(adb_path: String) -> (c: AdbClient)
        ensures
            c.path() == adb_path@,
            c.known().len() == 0,
            c.selected() is None,
    {
        let c = AdbClient { adb_path, selected_device: None, devices: Vec::new() };
        assert(device_views(c.devices@) =~= Seq::<DeviceView>::empty());
        c
    }

    /// The selected device.
    pub closed spec fn selected(&self) -> Option<DeviceView> {
        opt_device(self.selected_device)
    }

    /// The `adb` executable.
    pub closed spec fn path(&self) -> Seq<char> {
        self.adb_path@
    }

    /// The devices seen by the last successful listing.
    pub closed spec fn known(&self) -> Seq<DeviceView> {
        device_views(self.devices@)
    }

    /// Whether a device is selected.
    pub fn has_selection(&self) -> (b: bool)
        ensures
            b == self.selected() is Some,
    {
        self.selected_device.is_some()
    }

    /// The selected device, if any.
    pub fn selected_device_ref(&self) -> (r: Option<&Device>)
        ensures
            match r {
                Some(d) => self.selected() == Some(d@),
                None => self.selected() is None,
            },
    {
        match &self.selected_device {
            Some(d) => Some(d),
            None => None,
        }
    }

    /// Selects `d`.
    pub fn set_selected(&mut self, d: Device)
        ensures
            final(self).selected() == Some(d@),
            final(self).known() == old(self).known(),
            final(self).path() == old(self).path(),
    {
        self.selected_device = Some(d);
    }

    pub fn adb_path(&self) -> (p: &str)
        ensures
            p@ == self.path(),
    {
        self.adb_path.as_str()
    }

    /// The serial of the selected device, for `adb -s`.
    pub fn device_serial(&self) -> (s: Option<&str>)
        ensures
            match self.selected() {
                Some(d) => s is Some && s->0@ == d.serial,
                None => s is None,
            },
    {
        match &self.selected_device {
            Some(d) => Some(d.serial.as_str()),
            None => None,
        }
    }

    /// Takes in a listing by `adb devices -l` (`None`: the command could not
    /// be run, and the last listing stays).
    pub fn list_devices(&mut self, output: Option<&str>) -> (r: &Vec<Device>)
        ensures
            final(self).known() == match output {
                Some(o) => parse_device_list(o@),
                None => old(self).known(),
            },
            device_views(r@) == final(self).known(),
            final(self).selected() == old(self).selected(),
            final(self).path() == old(self).path(),
    {
        match output {
            Some(o) => {
                self.devices = parse_devices(o);
            },
            None => {},
        }
        &self.devices
    }

    /// Lists the devices (see [`Self::list_devices`]) and selects the first
    /// one with serial `serial`; `None`, with the selection unchanged, if
    /// there is none.
    pub fn select_device(&mut self, serial: &str, output: Option<&str>) -> (r: Option<&Device>)
        ensures
            final(self).known() == match output {
                Some(o) => parse_device_list(o@),
                None => old(self).known(),
            },
            final(self).path() == old(self).path(),
            match r {
                Some(d) => exists|i: int|
                    first_with_serial(final(self).known(), serial@, i) && d@ == final(self).known()[i] && final(self).selected() == Some(d@),
                None => (forall|i: int|
                    0 <= i < final(self).known().len() ==> (#[trigger] final(self).known()[i]).serial
                        != serial@) && final(self).selected() == old(self).selected(),
            },
    {
        self.list_devices(output);
        let ghost k = self.known();
        let ghost sel = self.selected_device;
        let mut i: usize = 0;
        while i < self.devices.len()
            invariant
                i <= self.devices@.len(),
                self.known() == k,
                k == match output {
                    Some(o) => parse_device_list(o@),
                    None => old(self).known(),
                },
                self.path() == old(self).path(),
                self.selected_device == sel,
                opt_device(sel) == old(self).selected(),
                forall|j: int| 0 <= j < i ==> (#[trigger] self.known()[j]).serial != serial@,
            decreases self.devices@.len() - i,
        {
            if str_eq(self.devices[i].serial.as_str(), serial) {
                let d = copy_device(&self.devices[i]);
                assert(first_with_serial(self.known(), serial@, i as int));
                assert(d@ == self.known()[i as int]);
                self.selected_device = Some(d);
                return self.selected_device.as_ref();
            }
            i = i + 1;
        }
        None
    }

    /// Lists the devices and selects the only online one; `None`, with the
    /// selection unchanged, when there are none or several.
    pub fn auto_select(&mut self, output: Option<&str>) -> (r: Option<&Device>)
        ensures
            final(self).known() == match output {
                Some(o) => parse_device_list(o@),
                None => old(self).known(),
            },
            final(self).path() == old(self).path(),
            online_count(final(self).known()) == 1 ==> r is Some && r->0@ == first_online(
                final(self).known(),
            ) && final(self).selected() == Some(r->0@),
            online_count(final(self).known()) != 1 ==> r is None && final(self).selected() == old(self).selected(),
    {
        self.list_devices(output);
        let ghost ds = self.known();
        let ghost pred = online_pred();
        let mut count: usize = 0;
        let mut first: usize = 0;
        let mut i: usize = 0;
        while i < self.devices.len()
            invariant
                i <= self.devices@.len(),
                ds == self.known(),
                ds.len() == self.devices@.len(),
                pred == online_pred(),
                count == ds.take(i as int).filter(pred).len(),
                count <= i,
                count > 0 ==> first < i && ds[first as int].state == StateView::Device
                    && ds.take(i as int).filter(pred)[0] == ds[first as int],
            decreases self.devices@.len() - i,
        {
            proof {
                lemma_online_step(ds, i as int);
            }
            assert(ds[i as int] == self.devices@[i as int]@);
            if self.devices[i].is_online() {
                if count == 0 {
                    first = i;
                }
                count = count + 1;
            }
            i = i + 1;
        }
        assert(ds.take(ds.len() as int) =~= ds);
        if count == 1 {
            let d = copy_device(&self.devices[first]);
            self.selected_device = Some(d);
            self.selected_device.as_ref()
        } else {
            None
        }
    }

    /// The address `adb connect` is given: `:5555` is added when no port
    /// is written.
    pub fn connect_address(address: &str) -> (a: String)
        ensures
            a@ == if address@.contains(':') {
                address@
            } else {
                address@ + ":5555"@
            },
    {
        let mut a = string_from(address);
        if !has_colon(address) {
            push_str(&mut a, ":5555");
        }
        a
    }

    /// Whether `adb connect` reported success (its output mentions
    /// `connected`, in any case).
    pub fn connect_succeeded(stdout: &str) -> (b: bool)
        ensures
            b == contains(lowercase(trim(stdout@)), "connected"@),
    {
        let t = trimmed(stdout);
        let ts = from_chars(t.as_slice());
        let low = to_lower(ts.as_str());
        str_contains(low.as_str(), "connected")
    }

    /// Connects to a network device: `outcome` is what `adb connect`
    /// printed on stdout, or the error text when it could not be run;
    /// `listing` is the device list taken after a successful connect. On
    /// success the device with the connect address is selected.
    pub fn connect_tcp(
        &mut self,
        address: &str,
        outcome: Result<String, String>,
        listing: Option<&str>,
    ) -> (r: (bool, String))
        ensures
            final(self).path() == old(self).path(),
            match outcome {
                Ok(out) => {
                    &&& r.0 == contains(lowercase(trim(out@)), "connected"@)
                    &&& r.1@ == trim(out@)
                    &&& !r.0 ==> final(self).known() == old(self).known()
                        && final(self).selected() == old(self).selected()
                    &&& r.0 ==> final(self).known() == match listing {
                        Some(o) => parse_device_list(o@),
                        None => old(self).known(),
                    }
                    &&& r.0 ==> selected_by_serial(
                        final(self).known(),
                        connect_serial(address@),
                        old(self).selected(),
                        final(self).selected(),
                    )
                },
                Err(e) => !r.0 && r.1@ == "Error: "@ + e@ && final(self).known() == old(self).known() && final(self).selected() == old(self).selected(),
            },
    {
        let addr = AdbClient::connect_address(address);
        match outcome {
            Ok(out) => {
                let t = trimmed(out.as_str());
                let msg = from_chars(t.as_slice());
                let ok = AdbClient::connect_succeeded(out.as_str());
                if ok {
                    let _ = self.select_device(addr.as_str(), listing);
                }
                (ok, msg)
            },
            Err(e) => error_reply("Error: ", e.as_str()),
        }
    }

    /// The serial `adb disconnect` is given: the one asked for, else the
    /// selected device when it is a network device, else none (all).
    pub fn disconnect_target(&self, serial: Option<&str>) -> (t: Option<String>)
        ensures
            opt_text(t) == match serial {
                Some(s) => Some(s@),
                None => match self.selected() {
                    Some(d) => if connection_of(d.serial) == ConnectionType::Tcp {
                        Some(d.serial)
                    } else {
                        None
                    },
                    None => None,
                },
            },
    {
        match serial {
            Some(s) => Some(string_from(s)),
            None => match &self.selected_device {
                Some(d) => {
                    if d.connection_type() == ConnectionType::Tcp {
                        Some(d.serial.clone())
                    } else {
                        None
                    }
                },
                None => None,
            },
        }
    }

    /// Disconnects: `outcome` is what `adb disconnect` printed, or the
    /// error text. On success the selection is dropped when everything was
    /// disconnected or the selected device was the one named.
    pub fn disconnect(&mut self, serial: Option<&str>, outcome: Result<String, String>) -> (r: (
        bool,
        String,
    ))
        ensures
            final(self).known() == old(self).known(),
            final(self).path() == old(self).path(),
            match outcome {
                Ok(out) => {
                    &&& r.0
                    &&& r.1@ == trim(out@)
                    &&& final(self).selected() == if serial is None || (old(self).selected() is Some
                        && old(self).selected()->0.serial == serial->0@) {
                        None
                    } else {
                        old(self).selected()
                    }
                },
                Err(e) => !r.0 && r.1@ == "Error: "@ + e@ && final(self).selected() == old(self).selected(),
            },
    {
        match outcome {
            Ok(out) => {
                let t = trimmed(out.as_str());
                let msg = from_chars(t.as_slice());
                let drop = match serial {
                    None => true,
                    Some(s) => match &self.selected_device {
                        Some(d) => str_eq(d.serial.as_str(), s),
                        None => false,
                    },
                };
                if drop {
                    self.selected_device = None;
                }
                (true, msg)
            },
            Err(e) => error_reply("Error: ", e.as_str()),
        }
    }

    /// The PID `pidof` reported (its whole trimmed output must be a number).
    pub fn pid_from_pidof(stdout: &str) -> (r: Option<u32>)
        ensures
            r == pid_from_pidof_spec(stdout@),
    {
        let t = trimmed(stdout);
        assert(t@.subrange(0, t@.len() as int) =~= t@);
        parse_u32_range(&t, 0, t.len())
    }

    /// The PID in `ps -A | grep PACKAGE` output: the second column of the
    /// first line that mentions the package and has a number there.
    pub fn pid_from_ps(stdout: &str, package: &str) -> (r: Option<u32>)
        ensures
            r == pid_from_ps_spec(stdout@, package@),
    {
        let chars = to_chars(stdout);
        let ls = split_lines(&chars);
        let pkg = to_chars(package);
        let ghost lv = char_views(ls@);
        let mut i: usize = 0;
        while i < ls.len()
            invariant
                i <= ls@.len(),
                lv == char_views(ls@),
                lv == lines(stdout@),
                pkg@ == package@,
                pid_from_ps_lines(lv, package@, i as int) == pid_from_ps_spec(stdout@, package@),
            decreases ls@.len() - i,
        {
            let parts = split_words(&ls[i]);
            if parts.len() >= 2 && contains_chars(&ls[i], &pkg) {
                assert(parts[1]@.subrange(0, parts[1]@.len() as int) =~= parts[1]@);
                match parse_u32_range(&parts[1], 0, parts[1].len()) {
                    Some(p) => {
                        return Some(p);
                    },
                    None => {},
                }
            }
            i = i + 1;
        }
        None
    }

    /// The PID of `package`: from `pidof` output if that is one number,
    /// else from the `ps` listing (when one could be taken).
    pub fn get_pid(package: &str, pidof_out: Option<&str>, ps_out: Option<&str>) -> (r: Option<u32>)
        ensures
            r == match pidof_out {
                Some(o) if pid_from_pidof_spec(o@) is Some => pid_from_pidof_spec(o@),
                _ => match ps_out {
                    Some(p) => pid_from_ps_spec(p@, package@),
                    None => None,
                },
            },
    {
        match pidof_out {
            Some(o) => {
                let r = AdbClient::pid_from_pidof(o);
                if r.is_some() {
                    return r;
                }
            },
            None => {},
        }
        match ps_out {
            Some(p) => AdbClient::pid_from_ps(p, package),
            None => None,
        }
    }

    /// The reply to `adb kill-server`.
    pub fn kill_server(outcome: Result<CommandOutput, String>) -> (r: (bool, String))
        ensures
            match outcome {
                Ok(out) => r.0 == out.success && r.1@ == server_message(
                    out.stdout@,
                    out.stderr@,
                    "adb server killed"@,
                ),
                Err(e) => !r.0 && r.1@ == "adb kill-server failed: "@ + e@,
            },
    {
        match outcome {
            Ok(out) => server_reply(&out, "adb server killed"),
            Err(e) => error_reply("adb kill-server failed: ", e.as_str()),
        }
    }

    /// The reply to `adb start-server`.
    pub fn start_server(outcome: Result<CommandOutput, String>) -> (r: (bool, String))
        ensures
            match outcome {
                Ok(out) => r.0 == out.success && r.1@ == server_message(
                    out.stdout@,
                    out.stderr@,
                    "adb server started"@,
                ),
                Err(e) => !r.0 && r.1@ == "adb start-server failed: "@ + e@,
            },
    {
        match outcome {
            Ok(out) => server_reply(&out, "adb server started"),
            Err(e) => error_reply("adb start-server failed: ", e.as_str()),
        }
    }

    /// The reply to `adb version`: its trimmed output, or why adb was not
    /// found.
    pub fn check_adb(outcome: Result<String, String>) -> (r: (bool, String))
        ensures
            match outcome {
                Ok(out) => r.0 && r.1@ == trim(out@),
                Err(e) => !r.0 && r.1@ == "adb not found: "@ + e@,
            },
    {
        match outcome {
            Ok(out) => {
                let t = trimmed(out.as_str());
                (true, from_chars(t.as_slice()))
            },
            Err(e) => error_reply("adb not found: ", e.as_str()),
        }
    }

    /// The foreground app's package in `dumpsys activity activities`
    /// output.
    pub fn get_foreground_package(output: Option<&str>) -> (r: Option<String>)
        ensures
            opt_text(r) == match output {
                Some(o) => foreground_spec(o@),
                None => None,
            },
    {
        match output {
            Some(o) => foreground_of(o),
            None => None,
        }
    }
}

} // verus!
