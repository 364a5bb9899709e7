use vstd::prelude::*;
use vstd::string::*;
use vstd::utf8::encode_utf8;

verus! {

/// Most UTF-8 bytes that a rendered unknown-host payload may take: a frame
/// that carries it, with its packet id and length prefix, must still have a
/// length that fits in an `i32`.
pub const MAX_TEXT_BYTES: usize = 2147483631;

/// A backend that a hostname routes to.
#[derive(Debug, Clone)]
pub struct Server {
    /// Its address, as `host:port`.
    pub ip: String,
}

/// The value of the first entry whose key is `key`.
pub open spec fn lookup<V>(entries: Seq<(Seq<char>, V)>, key: Seq<char>) -> Option<V>
    decreases entries.len(),
{
    if entries.len() == 0 {
        None
    } else if entries[0].0 == key {
        Some(entries[0].1)
    } else {
        lookup(entries.drop_first(), key)
    }
}

/// No two entries share a key.
pub open spec fn keys_unique(entries: Seq<(Seq<char>, Seq<char>)>) -> bool {
    forall|a: int, b: int| 0 <= a < b < entries.len() ==> #[trigger] entries[a].0 != #[trigger] entries[b].0
}

/// A list of text settings, as key and value.
pub open spec fn entries_view(entries: Seq<(String, String)>) -> Seq<(Seq<char>, Seq<char>)> {
    entries.map_values(|e: (String, String)| (e.0@, e.1@))
}

/// A routing table, as hostname and backend address.
pub open spec fn hosts_view(hosts: Seq<(String, Server)>) -> Seq<(Seq<char>, Seq<char>)> {
    hosts.map_values(|e: (String, Server)| (e.0@, e.1.ip@))
}

/// Kick message used when the settings name none.
pub open spec fn default_kick_message() -> Seq<char> {
    "§cInvalid Address"@
}

/// The disconnect text that carries `msg`.
pub open spec fn kick_text(msg: Seq<char>) -> Seq<char> {
    "{\"text\":\""@ + msg + "\"}"@
}

/// The status text that names the protocol `name` and describes the
/// server as `motd`.
pub open spec fn motd_text(name: Seq<char>, motd: Seq<char>) -> Seq<char> {
    "{\"version\": {\"name\": \""@ + name
        + "\", \"protocol\": -1 }, \"players\": {\"max\": 0, \"online\": 0, \"sample\": [] }, \"description\": { \"text\": \""@
        + motd + "\" }}"@
}

/// The proxy's settings, as the model sees them.
pub struct ConfigView {
    pub listen_addr: Seq<char>,
    pub kick_message: Option<Seq<char>>,
    pub protocol_name: Seq<char>,
    pub motd: Seq<char>,
    pub hosts: Seq<(Seq<char>, Seq<char>)>,
}

/// The disconnect text that a client with an unknown host gets at login.
pub open spec fn kick_payload(c: ConfigView) -> Seq<char> {
    kick_text(
        match c.kick_message {
            Some(m) => m,
            None => default_kick_message(),
        },
    )
}

/// The status text that a client with an unknown host gets.
pub open spec fn motd_payload(c: ConfigView) -> Seq<char> {
    motd_text(c.protocol_name, c.motd)
}

/// Why settings were refused.
#[derive(Debug, Clone, Copy, PartialEq, Eq, Structural)]
pub enum ConfigError {
    /// No `protocol_name` entry among the unknown-host settings.
    MissingProtocolName,
    /// No `motd` entry among the unknown-host settings.
    MissingMotd,
    /// A rendered unknown-host payload would exceed `MAX_TEXT_BYTES`.
    TextTooLong,
    /// The routing table names a hostname twice.
    DuplicateHost,
}

/// The settings that `Config::new` makes of its arguments.
pub open spec fn config_of(
    listen_addr: Seq<char>,
    unknown_host: Seq<(Seq<char>, Seq<char>)>,
    hosts: Seq<(Seq<char>, Seq<char>)>,
) -> Result<ConfigView, ConfigError> {
    if !keys_unique(hosts) {
        Err(ConfigError::DuplicateHost)
    } else {
        match lookup(unknown_host, "protocol_name"@) {
            None => Err(ConfigError::MissingProtocolName),
            Some(name) => match lookup(unknown_host, "motd"@) {
                None => Err(ConfigError::MissingMotd),
                Some(motd) => {
                    let c = ConfigView {
                        listen_addr,
                        kick_message: lookup(unknown_host, "kick_message"@),
                        protocol_name: name,
                        motd,
                        hosts,
                    };
                    if encode_utf8(kick_payload(c)).len() > MAX_TEXT_BYTES || encode_utf8(
                        motd_payload(c),
                    ).len() > MAX_TEXT_BYTES {
                        Err(ConfigError::TextTooLong)
                    } else {
                        Ok(c)
                    }
                },
            },
        }
    }
}

/// The proxy's settings: where it listens, what a client with an unknown
/// host is told, and the routing table from hostname to backend.
#[derive(Debug)]
pub struct Config {
    listen_addr: String,
    kick_message: Option<String>,
    protocol_name: String,
    motd: String,
    host: Vec<(String, Server)>,
}

impl View for Config {
    type V = ConfigView;

    closed spec fn view(&self) -> ConfigView {
        ConfigView {
            listen_addr: self.listen_addr@,
            kick_message: match self.kick_message {
                Some(m) => Some(m@),
                None => None,
            },
            protocol_name: self.protocol_name@,
            motd: self.motd@,
            hosts: hosts_view(self.host@),
        }
    }
}

fn find_setting<'a>(entries: &'a Vec<(String, String)>, key: &str) -> (r: Option<&'a String>)
    ensures
        match r {
            Some(v) => lookup(entries_view(entries@), key@) == Some(v@),
            None => lookup(entries_view(entries@), key@) is None,
        },
{
    let wanted = String::from_str(key);
    let ghost all = entries_view(entries@);
    let mut i: usize = 0;
    assert(all.skip(0) =~= all);
    while i < entries.len()
        invariant
            i <= entries@.len(),
            all == entries_view(entries@),
            wanted@ == key@,
            lookup(all, key@) == lookup(all.skip(i as int), key@),
        decreases entries@.len() - i,
    {
        assert(all.skip(i as int)[0] == (entries@[i as int].0@, entries@[i as int].1@));
        if entries[i].0 == wanted {
            assert(all.skip(i as int).len() > 0);
            assert(lookup(entries_view(entries@), key@) == Some(entries@[i as int].1@));
            return Some(&entries[i].1);
        }
        assert(all.skip(i as int).drop_first() =~= all.skip(i + 1));
        i = i + 1;
    }
    None
}

fn hosts_unique(host: &Vec<(String, Server)>) -> (r: bool)
    ensures
        r == keys_unique(hosts_view(host@)),
{
    let ghost all = hosts_view(host@);
    let n = host.len();
    let mut i: usize = 0;
    while i < n
        invariant
            i <= n,
            n == host@.len(),
            all == hosts_view(host@),
            forall|a: int, b: int| 0 <= a < b < n && a < i ==> #[trigger] all[a].0 != #[trigger] all[b].0,
        decreases n - i,
    {
        let mut j: usize = i + 1;
        while j < n
            invariant
                i < n,
                i + 1 <= j <= n,
                n == host@.len(),
                all == hosts_view(host@),
                forall|a: int, b: int| 0 <= a < b < n && a < i ==> #[trigger] all[a].0 != #[trigger] all[b].0,
                forall|b: int| i < b < j ==> all[i as int].0 != #[trigger] all[b].0,
            decreases n - j,
        {
            assert(all[i as int].0 == host@[i as int].0@);
            assert(all[j as int].0 == host@[j as int].0@);
            if host[i].0 == host[j].0 {
                return false;
            }
            j = j + 1;
        }
        i = i + 1;
    }
    true
}

fn render_kick(msg: &str) -> (r: String)
    ensures
        r@ == kick_text(msg@),
{
    let mut text = String::from_str("{\"text\":\"");
    text.append(msg);
    text.append("\"}");
    text
}

fn render_motd(name: &str, motd: &str) -> (r: String)
    ensures
        r@ == motd_text(name@, motd@),
{
    let mut text = String::from_str("{\"version\": {\"name\": \"");
    text.append(name);
    text.append(
        "\", \"protocol\": -1 }, \"players\": {\"max\": 0, \"online\": 0, \"sample\": [] }, \"description\": { \"text\": \"",
    );
    text.append(motd);
    text.append("\" }}");
    text
}

impl Config {
    #[verifier::type_invariant]
    spec fn payloads_fit(self) -> bool {
        &&& encode_utf8(kick_payload(self@)).len() <= MAX_TEXT_BYTES
        &&& encode_utf8(motd_payload(self@)).len() <= MAX_TEXT_BYTES
        &&& keys_unique(self@.hosts)
    }

    /// Settings from a listening address, the unknown-host entries
    /// (`kick_message`, which may be absent, `protocol_name` and `motd`; the
    /// first entry of a key counts) and the routing table, in which each
    /// hostname may appear once.
    pub fn new(listen_addr: String, unknown_host: Vec<(String, String)>, host: Vec<(String, Server)>) -> (r:
        Result<Config, ConfigError>)
        ensures
            match r {
                Ok(c) => config_of(listen_addr@, entries_view(unknown_host@), hosts_view(host@))
                    == Ok::<ConfigView, ConfigError>(c@),
                Err(e) => config_of(listen_addr@, entries_view(unknown_host@), hosts_view(host@))
                    == Err::<ConfigView, ConfigError>(e),
            },
    {
        if !hosts_unique(&host) {
            return Err(ConfigError::DuplicateHost);
        }
        let protocol_name = match find_setting(&unknown_host, "protocol_name") {
            Some(v) => v.clone(),
            None => return Err(ConfigError::MissingProtocolName),
        };
        let motd = match find_setting(&unknown_host, "motd") {
            Some(v) => v.clone(),
            None => return Err(ConfigError::MissingMotd),
        };
        let kick_message = match find_setting(&unknown_host, "kick_message") {
            Some(v) => Some(v.clone()),
            None => None,
        };
        let kick = match &kick_message {
            Some(m) => render_kick(m.as_str()),
            None => render_kick("§cInvalid Address"),
        };
        let status = render_motd(protocol_name.as_str(), motd.as_str());
        if kick.as_str().as_bytes_vec().len() > MAX_TEXT_BYTES || status.as_str().as_bytes_vec().len()
            > MAX_TEXT_BYTES {
            return Err(ConfigError::TextTooLong);
        }
        Ok(Config { listen_addr, kick_message, protocol_name, motd, host })
    }

    /// The disconnect text for a client whose host is unknown.
    pub fn get_unknown_host_kick_msg(&self) -> (r: String)
        ensures
            r@ == kick_payload(self@),
            encode_utf8(r@).len() <= MAX_TEXT_BYTES,
    {
        proof {
            use_type_invariant(self);
        }
        match &self.kick_message {
            Some(m) => render_kick(m.as_str()),
            None => render_kick("§cInvalid Address"),
        }
    }

    /// The status text for a client whose host is unknown.
    pub fn get_unknown_host_motd(&self) -> (r: String)
        ensures
            r@ == motd_payload(self@),
            encode_utf8(r@).len() <= MAX_TEXT_BYTES,
    {
        proof {
            use_type_invariant(self);
        }
        render_motd(self.protocol_name.as_str(), self.motd.as_str())
    }

    /// The address to listen on.
    pub fn get_listen_addr(&self) -> (r: &str)
        ensures
            r@ == self@.listen_addr,
    {
        self.listen_addr.as_str()
    }

    /// The routing table, hostname and backend.
    pub fn get_hosts(&self) -> (r: &Vec<(String, Server)>)
        ensures
            hosts_view(r@) == self@.hosts,
    {
        &self.host
    }

    /// The backend for `host`: exact, case-sensitive match of the hostname.
    pub fn get_addr_by_host(&self, host: &str) -> (r: Option<&Server>)
        ensures
            match r {
                Some(s) => lookup(self@.hosts, host@) == Some(s.ip@),
                None => lookup(self@.hosts, host@) is None,
            },
    {
        let wanted = String::from_str(host);
        let ghost all = hosts_view(self.host@);
        let mut i: usize = 0;
        assert(all.skip(0) =~= all);
        while i < self.host.len()
            invariant
                i <= self.host@.len(),
                all == hosts_view(self.host@),
                all == self@.hosts,
                wanted@ == host@,
                lookup(all, host@) == lookup(all.skip(i as int), host@),
            decreases self.host@.len() - i,
        {
            assert(all.skip(i as int)[0] == (self.host@[i as int].0@, self.host@[i as int].1.ip@));
            if self.host[i].0 == wanted {
                assert(all.skip(i as int).len() > 0);
                return Some(&self.host[i].1);
            }
            assert(all.skip(i as int).drop_first() =~= all.skip(i + 1));
            i = i + 1;
        }
        None
    }
}

} // verus!
