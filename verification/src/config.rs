//! The client's configuration file: `KEY=VALUE` lines naming the server,
//! the host name, the subnet to scan and the interface address, where
//! `auto` stands for "not set".

use vstd::prelude::*;

use crate::text::{
    chars_of, is_space, lemma_lines_cons, lemma_split_once_cons, lemma_trim_clean, lemma_trim_unchanged,
    lemma_trimmed_ends, lines, same_chars, split_lines, split_once, split_once_chars, string_of,
    strip_cr, trim, trim_chars, views,
};

verus! {

/// What a configuration file sets: each setting is absent when the file
/// leaves it unset.
pub struct ConfigSettings {
    pub hostname: Option<String>,
    pub server: Option<String>,
    pub subnet: Option<String>,
    pub interface_ip: Option<String>,
}

/// The texts of the settings.
pub struct SettingsView {
    pub hostname: Option<Seq<char>>,
    pub server: Option<Seq<char>>,
    pub subnet: Option<Seq<char>>,
    pub interface_ip: Option<Seq<char>>,
}

/// The text of an optional string.
pub open spec fn opt_string(s: Option<String>) -> Option<Seq<char>> {
    match s {
        Some(s) => Some(s@),
        None => None,
    }
}

impl View for ConfigSettings {
    type V = SettingsView;

    open spec fn view(&self) -> SettingsView {
        SettingsView {
            hostname: opt_string(self.hostname),
            server: opt_string(self.server),
            subnet: opt_string(self.subnet),
            interface_ip: opt_string(self.interface_ip),
        }
    }
}

/// Nothing set.
pub open spec fn no_settings() -> SettingsView {
    SettingsView { hostname: None, server: None, subnet: None, interface_ip: None }
}

/// One line of the file: `KEY=VALUE`, key and value trimmed. `HOSTNAME` sets
/// the host name; `SERVER` and `SUBNET` set theirs unless the value is
/// `auto`; `INTERFACE_IP` sets the interface address unless the value is
/// empty or `auto`. Other lines change nothing.
pub open spec fn settings_step(c: SettingsView, line: Seq<char>) -> SettingsView {
    match split_once(line, '=') {
        None => c,
        Some((key, value)) => {
            let k = trim(key);
            let v = trim(value);
            if k == "HOSTNAME"@ {
                SettingsView { hostname: Some(v), ..c }
            } else if k == "SERVER"@ {
                if v != "auto"@ {
                    SettingsView { server: Some(v), ..c }
                } else {
                    c
                }
            } else if k == "SUBNET"@ {
                if v != "auto"@ {
                    SettingsView { subnet: Some(v), ..c }
                } else {
                    c
                }
            } else if k == "INTERFACE_IP"@ {
                if v.len() > 0 && v != "auto"@ {
                    SettingsView { interface_ip: Some(v), ..c }
                } else {
                    c
                }
            } else {
                c
            }
        },
    }
}

/// The settings that the lines `ls` make, read in order.
pub open spec fn settings_of_lines(ls: Seq<Seq<char>>) -> SettingsView
    decreases ls.len(),
{
    if ls.len() == 0 {
        no_settings()
    } else {
        settings_step(settings_of_lines(ls.drop_last()), ls.last())
    }
}

/// The settings that a configuration file's text makes.
pub open spec fn settings_of_text(text: Seq<char>) -> SettingsView {
    settings_of_lines(lines(text))
}

/// Reads the settings of a configuration file.
pub fn parse_config(content: &str) -> (r: ConfigSettings)
    ensures
        r@ == settings_of_text(content@),
{
    let text = chars_of(content);
    let ls = split_lines(&text);
    let ghost all = views(ls@);
    let k_host = chars_of("HOSTNAME");
    let k_server = chars_of("SERVER");
    let k_subnet = chars_of("SUBNET");
    let k_iface = chars_of("INTERFACE_IP");
    let auto = chars_of("auto");
    let mut r = ConfigSettings { hostname: None, server: None, subnet: None, interface_ip: None };
    let mut i: usize = 0;
    assert(all.take(0) =~= Seq::<Seq<char>>::empty());
    while i < ls.len()
        invariant
            i <= ls.len(),
            all == views(ls@),
            all == lines(content@),
            k_host@ == "HOSTNAME"@,
            k_server@ == "SERVER"@,
            k_subnet@ == "SUBNET"@,
            k_iface@ == "INTERFACE_IP"@,
            auto@ == "auto"@,
            r@ == settings_of_lines(all.take(i as int)),
        decreases ls.len() - i,
    {
        proof {
            assert(all.take(i + 1).drop_last() =~= all.take(i as int));
            assert(all.take(i + 1).last() == ls@[i as int]@);
        }
        match split_once_chars(&ls[i], '=') {
            None => {},
            Some((key, value)) => {
                let k = trim_chars(&key);
                let v = trim_chars(&value);
                if same_chars(&k, &k_host) {
                    r.hostname = Some(string_of(&v));
                } else if same_chars(&k, &k_server) {
                    if !same_chars(&v, &auto) {
                        r.server = Some(string_of(&v));
                    }
                } else if same_chars(&k, &k_subnet) {
                    if !same_chars(&v, &auto) {
                        r.subnet = Some(string_of(&v));
                    }
                } else if same_chars(&k, &k_iface) {
                    if v.len() > 0 && !same_chars(&v, &auto) {
                        r.interface_ip = Some(string_of(&v));
                    }
                }
            },
        }
        i = i + 1;
    }
    assert(all.take(ls.len() as int) =~= all);
    r
}

/// The client's configuration: the host name it registers, and the server,
/// subnet and interface address when they are fixed.
pub struct Config {
    pub hostname: String,
    pub server: Option<String>,
    pub subnet: Option<String>,
    pub interface_ip: Option<String>,
}

/// A setting as the file writes it: its value, or `auto` when unset.
pub open spec fn value_or_auto(v: Option<Seq<char>>) -> Seq<char> {
    match v {
        Some(v) => v,
        None => "auto"@,
    }
}

/// The text of a configuration file that holds these settings.
pub open spec fn config_text(
    hostname: Seq<char>,
    server: Option<Seq<char>>,
    subnet: Option<Seq<char>>,
    interface_ip: Option<Seq<char>>,
) -> Seq<char> {
    "SERVER="@ + value_or_auto(server) + "\n"@ + "HOSTNAME="@ + hostname + "\n"@ + "SUBNET="@
        + value_or_auto(subnet) + "\n"@ + "ENABLED=false\n"@ + "INTERFACE_IP="@ + value_or_auto(
        interface_ip,
    ) + "\n"@
}

/// Appends the characters of `s` to `out`.
fn push_str(out: &mut Vec<char>, s: &str)
    ensures
        final(out)@ == old(out)@ + s@,
{
    let mut part = chars_of(s);
    out.append(&mut part);
}

/// Appends a setting's value, or `auto` when it is unset.
fn push_value_or_auto(out: &mut Vec<char>, v: &Option<String>)
    ensures
        final(out)@ == old(out)@ + value_or_auto(opt_string(*v)),
{
    match v {
        Some(s) => push_str(out, s.as_str()),
        None => push_str(out, "auto"),
    }
}

impl Config {
    /// The settings this configuration holds.
    pub open spec fn settings(&self) -> SettingsView {
        SettingsView {
            hostname: Some(self.hostname@),
            server: opt_string(self.server),
            subnet: opt_string(self.subnet),
            interface_ip: opt_string(self.interface_ip),
        }
    }

    /// The configuration that a file's settings make, the host name coming
    /// from `fallback_hostname` when the file sets none.
    pub fn from_settings(settings: ConfigSettings, fallback_hostname: String) -> (c: Config)
        ensures
            c.hostname@ == match settings@.hostname {
                Some(h) => h,
                None => fallback_hostname@,
            },
            opt_string(c.server) == settings@.server,
            opt_string(c.subnet) == settings@.subnet,
            opt_string(c.interface_ip) == settings@.interface_ip,
    {
        Config {
            hostname: match settings.hostname {
                Some(h) => h,
                None => fallback_hostname,
            },
            server: settings.server,
            subnet: settings.subnet,
            interface_ip: settings.interface_ip,
        }
    }

    /// The text that saving this configuration writes.
    pub fn to_text(&self) -> (s: String)
        ensures
            s@ == config_text(
                self.hostname@,
                opt_string(self.server),
                opt_string(self.subnet),
                opt_string(self.interface_ip),
            ),
    {
        let mut out: Vec<char> = Vec::new();
        push_str(&mut out, "SERVER=");
        push_value_or_auto(&mut out, &self.server);
        push_str(&mut out, "\n");
        push_str(&mut out, "HOSTNAME=");
        push_str(&mut out, self.hostname.as_str());
        push_str(&mut out, "\n");
        push_str(&mut out, "SUBNET=");
        push_value_or_auto(&mut out, &self.subnet);
        push_str(&mut out, "\n");
        push_str(&mut out, "ENABLED=false\n");
        push_str(&mut out, "INTERFACE_IP=");
        push_value_or_auto(&mut out, &self.interface_ip);
        push_str(&mut out, "\n");
        assert(out@ =~= config_text(
            self.hostname@,
            opt_string(self.server),
            opt_string(self.subnet),
            opt_string(self.interface_ip),
        ));
        string_of(&out)
    }
}

/// A value that a configuration file holds unchanged: no line break in it
/// and no white space around it.
pub open spec fn storable(v: Seq<char>) -> bool {
    !v.contains('\n') && trim(v) == v
}

/// A `KEY=VALUE` line splits into the key and value, both already trimmed.
proof fn lemma_key_value(k: Seq<char>, v: Seq<char>)
    requires
        !k.contains('='),
        k.len() > 0,
        !is_space(k[0]),
        !is_space(k.last()),
        trim(v) == v,
    ensures
        split_once(k + seq!['='] + v, '=') == Some((k, v)),
        trim(k) == k,
{
    lemma_split_once_cons(k, '=', v);
    lemma_trim_unchanged(k);
}

/// A setting's line does not end in a carriage return.
proof fn lemma_no_cr(k: Seq<char>, v: Seq<char>)
    requires
        trim(v) == v,
    ensures
        strip_cr(k + seq!['='] + v) == k + seq!['='] + v,
{
    if v.len() > 0 {
        lemma_trimmed_ends(v);
        assert((k + seq!['='] + v).last() == v.last());
    }
}

/// A line with no line break in key or value holds none.
proof fn lemma_line_has_no_break(k: Seq<char>, v: Seq<char>)
    requires
        !k.contains('\n'),
        !v.contains('\n'),
    ensures
        !(k + seq!['='] + v).contains('\n'),
{
    let l = k + seq!['='] + v;
    if l.contains('\n') {
        let i = choose|i: int| 0 <= i < l.len() && l[i] == '\n';
        if i < k.len() {
            assert(k[i] == '\n');
            assert(k.contains('\n'));
        } else if i > k.len() {
            assert(v[i - k.len() - 1] == '\n');
            assert(v.contains('\n'));
        }
    }
}

/// The facts about the file's keys that reading it back rests on.
proof fn lemma_key_literals()
    ensures
        "SERVER="@ == "SERVER"@ + seq!['='],
        "HOSTNAME="@ == "HOSTNAME"@ + seq!['='],
        "SUBNET="@ == "SUBNET"@ + seq!['='],
        "INTERFACE_IP="@ == "INTERFACE_IP"@ + seq!['='],
        "ENABLED=false\n"@ == "ENABLED"@ + seq!['='] + "false"@ + seq!['\n'],
        "\n"@ == seq!['\n'],
        plain_key("SERVER"@),
        plain_key("HOSTNAME"@),
        plain_key("SUBNET"@),
        plain_key("INTERFACE_IP"@),
        plain_key("ENABLED"@),
        storable("auto"@),
        storable("false"@),
        "SERVER"@ != "HOSTNAME"@,
        "SUBNET"@ != "HOSTNAME"@,
        "SUBNET"@ != "SERVER"@,
        "INTERFACE_IP"@ != "HOSTNAME"@,
        "INTERFACE_IP"@ != "SERVER"@,
        "INTERFACE_IP"@ != "SUBNET"@,
        "ENABLED"@ != "HOSTNAME"@,
        "ENABLED"@ != "SERVER"@,
        "ENABLED"@ != "SUBNET"@,
        "ENABLED"@ != "INTERFACE_IP"@,
{
    reveal_strlit("SERVER=");
    reveal_strlit("SERVER");
    reveal_strlit("HOSTNAME=");
    reveal_strlit("HOSTNAME");
    reveal_strlit("SUBNET=");
    reveal_strlit("SUBNET");
    reveal_strlit("ENABLED=false\n");
    reveal_strlit("ENABLED");
    reveal_strlit("false");
    reveal_strlit("INTERFACE_IP=");
    reveal_strlit("INTERFACE_IP");
    reveal_strlit("auto");
    reveal_strlit("\n");
    assert("SERVER="@ =~= "SERVER"@ + seq!['=']);
    assert("HOSTNAME="@ =~= "HOSTNAME"@ + seq!['=']);
    assert("SUBNET="@ =~= "SUBNET"@ + seq!['=']);
    assert("INTERFACE_IP="@ =~= "INTERFACE_IP"@ + seq!['=']);
    assert("ENABLED=false\n"@ =~= "ENABLED"@ + seq!['='] + "false"@ + seq!['\n']);
    assert("\n"@ =~= seq!['\n']);
    lemma_plain_key("SERVER"@);
    lemma_plain_key("HOSTNAME"@);
    lemma_plain_key("SUBNET"@);
    lemma_plain_key("INTERFACE_IP"@);
    lemma_plain_key("ENABLED"@);
    lemma_plain_key("auto"@);
    lemma_plain_key("false"@);
    lemma_trim_unchanged("auto"@);
    lemma_trim_unchanged("false"@);
    assert("SUBNET"@[1] != "SERVER"@[1]);
    assert("ENABLED"@[0] != "SERVER"@[0]);
    assert("ENABLED"@[0] != "SUBNET"@[0]);
}

/// A key of the file: not empty, no `=`, no line break, no white space at its ends.
pub open spec fn plain_key(k: Seq<char>) -> bool {
    &&& k.len() > 0
    &&& !k.contains('=')
    &&& !k.contains('\n')
    &&& !is_space(k[0])
    &&& !is_space(k.last())
}

/// A word of letters and `_` is a plain key.
proof fn lemma_plain_key(k: Seq<char>)
    requires
        k.len() > 0,
        forall|i: int| 0 <= i < k.len() ==> ('A' <= #[trigger] k[i] <= 'Z' || 'a' <= k[i] <= 'z'
            || k[i] == '_'),
    ensures
        plain_key(k),
{
    if k.contains('=') {
        let i = choose|i: int| 0 <= i < k.len() && k[i] == '=';
        assert('A' <= k[i] <= 'Z' || 'a' <= k[i] <= 'z' || k[i] == '_');
    }
    if k.contains('\n') {
        let i = choose|i: int| 0 <= i < k.len() && k[i] == '\n';
        assert('A' <= k[i] <= 'Z' || 'a' <= k[i] <= 'z' || k[i] == '_');
    }
    assert('A' <= k[0] <= 'Z' || 'a' <= k[0] <= 'z' || k[0] == '_');
    assert('A' <= k[k.len() - 1] <= 'Z' || 'a' <= k[k.len() - 1] <= 'z' || k[k.len() - 1] == '_');
}

/// The line `KEY=VALUE` of the file.
pub open spec fn setting_line(k: Seq<char>, v: Seq<char>) -> Seq<char> {
    k + seq!['='] + v
}

/// The file's text is its five lines, each ended by `'\n'`.
proof fn lemma_config_lines(
    hostname: Seq<char>,
    v1: Seq<char>,
    v3: Seq<char>,
    v5: Seq<char>,
)
    requires
        storable(hostname),
        storable(v1),
        storable(v3),
        storable(v5),
    ensures
        lines(
            "SERVER="@ + v1 + "\n"@ + "HOSTNAME="@ + hostname + "\n"@ + "SUBNET="@ + v3 + "\n"@
                + "ENABLED=false\n"@ + "INTERFACE_IP="@ + v5 + "\n"@,
        ) == seq![
            setting_line("SERVER"@, v1),
            setting_line("HOSTNAME"@, hostname),
            setting_line("SUBNET"@, v3),
            setting_line("ENABLED"@, "false"@),
            setting_line("INTERFACE_IP"@, v5),
        ],
{
    lemma_key_literals();
    let l1 = setting_line("SERVER"@, v1);
    let l2 = setting_line("HOSTNAME"@, hostname);
    let l3 = setting_line("SUBNET"@, v3);
    let l4 = setting_line("ENABLED"@, "false"@);
    let l5 = setting_line("INTERFACE_IP"@, v5);
    lemma_line_has_no_break("SERVER"@, v1);
    lemma_line_has_no_break("HOSTNAME"@, hostname);
    lemma_line_has_no_break("SUBNET"@, v3);
    lemma_line_has_no_break("ENABLED"@, "false"@);
    lemma_line_has_no_break("INTERFACE_IP"@, v5);
    lemma_no_cr("SERVER"@, v1);
    lemma_no_cr("HOSTNAME"@, hostname);
    lemma_no_cr("SUBNET"@, v3);
    lemma_no_cr("ENABLED"@, "false"@);
    lemma_no_cr("INTERFACE_IP"@, v5);
    let nl = seq!['\n'];
    let e = Seq::<char>::empty();
    let text = "SERVER="@ + v1 + "\n"@ + "HOSTNAME="@ + hostname + "\n"@ + "SUBNET="@ + v3 + "\n"@
        + "ENABLED=false\n"@ + "INTERFACE_IP="@ + v5 + "\n"@;
    assert(text =~= l1 + nl + (l2 + nl + (l3 + nl + (l4 + nl + (l5 + nl + e)))));
    lemma_lines_cons(l1, l2 + nl + (l3 + nl + (l4 + nl + (l5 + nl + e))));
    lemma_lines_cons(l2, l3 + nl + (l4 + nl + (l5 + nl + e)));
    lemma_lines_cons(l3, l4 + nl + (l5 + nl + e));
    lemma_lines_cons(l4, l5 + nl + e);
    lemma_lines_cons(l5, e);
    assert(lines(e) =~= Seq::<Seq<char>>::empty());
    assert(lines(text) =~= seq![l1, l2, l3, l4, l5]);
}

/// Reading one `KEY=VALUE` line whose key is plain and whose value is trimmed.
proof fn lemma_step_line(c: SettingsView, k: Seq<char>, v: Seq<char>)
    requires
        plain_key(k),
        trim(v) == v,
    ensures
        settings_step(c, setting_line(k, v)) == (if k == "HOSTNAME"@ {
            SettingsView { hostname: Some(v), ..c }
        } else if k == "SERVER"@ {
            if v != "auto"@ {
                SettingsView { server: Some(v), ..c }
            } else {
                c
            }
        } else if k == "SUBNET"@ {
            if v != "auto"@ {
                SettingsView { subnet: Some(v), ..c }
            } else {
                c
            }
        } else if k == "INTERFACE_IP"@ {
            if v.len() > 0 && v != "auto"@ {
                SettingsView { interface_ip: Some(v), ..c }
            } else {
                c
            }
        } else {
            c
        }),
{
    lemma_key_value(k, v);
}

/// Reading one more line after `ls`.
proof fn lemma_settings_push(ls: Seq<Seq<char>>, l: Seq<char>)
    ensures
        settings_of_lines(ls.push(l)) == settings_step(settings_of_lines(ls), l),
{
    assert(ls.push(l).drop_last() =~= ls);
}

/// The file's five lines, read in order, set what they name.
proof fn lemma_five_lines(
    hostname: Seq<char>,
    server: Option<Seq<char>>,
    subnet: Option<Seq<char>>,
    interface_ip: Option<Seq<char>>,
)
    requires
        storable(hostname),
        server matches Some(s) ==> storable(s) && s != "auto"@,
        subnet matches Some(s) ==> storable(s) && s != "auto"@,
        interface_ip matches Some(s) ==> storable(s) && s.len() > 0 && s != "auto"@,
    ensures
        settings_of_lines(
            seq![
                setting_line("SERVER"@, value_or_auto(server)),
                setting_line("HOSTNAME"@, hostname),
                setting_line("SUBNET"@, value_or_auto(subnet)),
                setting_line("ENABLED"@, "false"@),
                setting_line("INTERFACE_IP"@, value_or_auto(interface_ip)),
            ],
        ) == (SettingsView { hostname: Some(hostname), server, subnet, interface_ip }),
{
    lemma_key_literals();
    let v1 = value_or_auto(server);
    let v3 = value_or_auto(subnet);
    let v5 = value_or_auto(interface_ip);
    let l1 = setting_line("SERVER"@, v1);
    let l2 = setting_line("HOSTNAME"@, hostname);
    let l3 = setting_line("SUBNET"@, v3);
    let l4 = setting_line("ENABLED"@, "false"@);
    let l5 = setting_line("INTERFACE_IP"@, v5);
    let e = Seq::<Seq<char>>::empty();
    lemma_settings_push(e, l1);
    lemma_settings_push(e.push(l1), l2);
    lemma_settings_push(e.push(l1).push(l2), l3);
    lemma_settings_push(e.push(l1).push(l2).push(l3), l4);
    lemma_settings_push(e.push(l1).push(l2).push(l3).push(l4), l5);
    let c0 = no_settings();
    lemma_step_line(c0, "SERVER"@, v1);
    let c1 = SettingsView { server, ..c0 };
    lemma_step_line(c1, "HOSTNAME"@, hostname);
    let c2 = SettingsView { hostname: Some(hostname), ..c1 };
    lemma_step_line(c2, "SUBNET"@, v3);
    let c3 = SettingsView { subnet, ..c2 };
    lemma_step_line(c3, "ENABLED"@, "false"@);
    lemma_step_line(c3, "INTERFACE_IP"@, v5);
    assert(e.push(l1).push(l2).push(l3).push(l4).push(l5) =~= seq![l1, l2, l3, l4, l5]);
}

/// Saving a configuration and reading the file back gives its settings back,
/// when no value has a line break or surrounding white space, the server
/// and subnet are not literally `auto`, and the interface address is not
/// empty nor `auto`.
pub proof fn lemma_config_roundtrip(
    hostname: Seq<char>,
    server: Option<Seq<char>>,
    subnet: Option<Seq<char>>,
    interface_ip: Option<Seq<char>>,
)
    requires
        storable(hostname),
        server matches Some(s) ==> storable(s) && s != "auto"@,
        subnet matches Some(s) ==> storable(s) && s != "auto"@,
        interface_ip matches Some(s) ==> storable(s) && s.len() > 0 && s != "auto"@,
    ensures
        settings_of_text(config_text(hostname, server, subnet, interface_ip)) == (SettingsView {
            hostname: Some(hostname),
            server,
            subnet,
            interface_ip,
        }),
{
    lemma_key_literals();
    lemma_config_lines(
        hostname,
        value_or_auto(server),
        value_or_auto(subnet),
        value_or_auto(interface_ip),
    );
    lemma_five_lines(hostname, server, subnet, interface_ip);
}

/// Whatever the file holds, `auto` never becomes the server, the subnet or
/// the interface address, and an empty value never becomes the interface
/// address: `auto` stands for "not set".
pub proof fn lemma_auto_means_unset(ls: Seq<Seq<char>>)
    ensures
        settings_of_lines(ls).server != Some("auto"@),
        settings_of_lines(ls).subnet != Some("auto"@),
        settings_of_lines(ls).interface_ip != Some("auto"@),
        settings_of_lines(ls).interface_ip != Some(Seq::<char>::empty()),
    decreases ls.len(),
{
    if ls.len() > 0 {
        lemma_auto_means_unset(ls.drop_last());
    }
}

/// A text with no white space at either end.
pub open spec fn unpadded(v: Seq<char>) -> bool {
    v.len() > 0 ==> !is_space(v[0]) && !is_space(v.last())
}

/// Whatever the file holds, no setting read from it has white space at
/// either end: each value is the text after the first `=`, trimmed, for
/// every key alike.
pub proof fn lemma_settings_unpadded(ls: Seq<Seq<char>>)
    ensures
        settings_of_lines(ls).hostname matches Some(v) ==> unpadded(v),
        settings_of_lines(ls).server matches Some(v) ==> unpadded(v),
        settings_of_lines(ls).subnet matches Some(v) ==> unpadded(v),
        settings_of_lines(ls).interface_ip matches Some(v) ==> unpadded(v),
    decreases ls.len(),
{
    if ls.len() > 0 {
        lemma_settings_unpadded(ls.drop_last());
        if let Some((key, value)) = split_once(ls.last(), '=') {
            lemma_trim_clean(value);
        }
    }
}

/// A line `key=value` (the first `=` splits it) read after the lines `ls`
/// sets the setting that the trimmed key names to the trimmed value,
/// whatever earlier lines set, and leaves the other settings as they were;
/// `auto` for the server, the subnet or the interface address, and an empty
/// interface address, leave everything as it was.
pub proof fn lemma_later_line_sets(ls: Seq<Seq<char>>, key: Seq<char>, value: Seq<char>)
    requires
        !key.contains('='),
    ensures
        ({
            let before = settings_of_lines(ls);
            let after = settings_of_lines(ls.push(key + seq!['='] + value));
            let k = trim(key);
            let v = trim(value);
            &&& k == "HOSTNAME"@ ==> after == SettingsView { hostname: Some(v), ..before }
            &&& k == "SERVER"@ && v != "auto"@ ==> after == SettingsView { server: Some(v), ..before }
            &&& k == "SUBNET"@ && v != "auto"@ ==> after == SettingsView { subnet: Some(v), ..before }
            &&& k == "INTERFACE_IP"@ && v.len() > 0 && v != "auto"@ ==> after == SettingsView {
                interface_ip: Some(v),
                ..before
            }
            &&& (k == "SERVER"@ || k == "SUBNET"@ || k == "INTERFACE_IP"@) && v == "auto"@ ==> after
                == before
            &&& k == "INTERFACE_IP"@ && v.len() == 0 ==> after == before
            &&& k != "HOSTNAME"@ && k != "SERVER"@ && k != "SUBNET"@ && k != "INTERFACE_IP"@
                ==> after == before
        }),
{
    let line = key + seq!['='] + value;
    lemma_split_once_cons(key, '=', value);
    assert(ls.push(line).drop_last() =~= ls);
    assert(ls.push(line).last() == line);
    lemma_key_literals();
}

} // verus!
