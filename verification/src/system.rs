//! Decisions about the system status shown on the lock screen and the
//! session commands sent to the login manager.
use vstd::prelude::*;
use crate::util::{
    chars_of,
    string_from_chars,
    has_prefix,
    contains_text,
    strip_repeated,
    prefix_at,
    contains_str,
};

verus! {

/// The NetworkManager device type of WiFi devices.
pub const WIFI_DEVICE_TYPE: u32 = 2;

#[derive(Debug, Clone, Copy, PartialEq, Eq, Structural)]
pub enum SystemCommand {
    PowerOff,
    Reboot,
    Suspend,
}

impl SystemCommand {
    /// The name of the login manager method that carries out the command.
    pub open spec fn spec_method_name(self) -> Seq<char> {
        match self {
            SystemCommand::PowerOff => "PowerOff"@,
            SystemCommand::Reboot => "Reboot"@,
            SystemCommand::Suspend => "Suspend"@,
        }
    }

    /// The name of the login manager method that carries out the command.
    pub fn method_name(&self) -> (name: &'static str)
        ensures
            name@ == self.spec_method_name(),
    {
        match self {
            SystemCommand::PowerOff => "PowerOff",
            SystemCommand::Reboot => "Reboot",
            SystemCommand::Suspend => "Suspend",
        }
    }
}

/// Where the album art of a media player comes from.
#[derive(Debug, PartialEq, Eq)]
pub enum ArtSource {
    /// A local file with this path.
    LocalFile(String),
    /// An address to download.
    Remote,
    /// Nothing that can be read.
    Unsupported,
}

/// Where the album art at `url` comes from: `file://` addresses name a
/// local file (every leading `file://` removed), `http` addresses are
/// downloaded, and nothing else is read.
pub fn classify_art_url(url: &str) -> (source: ArtSource)
    ensures
        has_prefix(url@, "file://"@) ==> (source matches ArtSource::LocalFile(path) && path@
            == strip_repeated(url@, "file://"@)),
        !has_prefix(url@, "file://"@) && has_prefix(url@, "http"@) ==> source == ArtSource::Remote,
        !has_prefix(url@, "file://"@) && !has_prefix(url@, "http"@) ==> source
            == ArtSource::Unsupported,
{
    let v = chars_of(url);
    let file = chars_of("file://");
    let http = chars_of("http");
    proof {
        reveal_strlit("file://");
        assert(v@.skip(0) =~= v@);
    }
    if prefix_at(&v, 0, &file) {
        let mut at: usize = 0;
        while at <= v.len() && prefix_at(&v, at, &file)
            invariant
                at <= v.len(),
                v@ == url@,
                file@ == "file://"@,
                file@.len() == 7,
                strip_repeated(url@, file@) == strip_repeated(v@.skip(at as int), file@),
            decreases v.len() - at,
        {
            proof {
                assert(v@.skip(at as int).skip(7) =~= v@.skip(at + 7));
            }
            at = at + 7;
        }
        assert(strip_repeated(v@.skip(at as int), file@) == v@.skip(at as int));
        let mut rest: Vec<char> = Vec::new();
        let mut i: usize = at;
        while i < v.len()
            invariant
                at <= i <= v.len(),
                rest@ == v@.subrange(at as int, i as int),
            decreases v.len() - i,
        {
            rest.push(v[i]);
            proof {
                assert(v@.subrange(at as int, i + 1) =~= v@.subrange(at as int, i as int).push(
                    v@[i as int],
                ));
            }
            i = i + 1;
        }
        assert(rest@ =~= v@.skip(at as int));
        ArtSource::LocalFile(string_from_chars(&rest))
    } else if prefix_at(&v, 0, &http) {
        ArtSource::Remote
    } else {
        ArtSource::Unsupported
    }
}

/// Whether the name of a battery state tells that the battery is charging:
/// it contains `Charging`.
pub fn is_charging_state(state_name: &str) -> (charging: bool)
    ensures
        charging == contains_text(state_name@, "Charging"@),
{
    contains_str(state_name, "Charging")
}

/// What the Bluetooth service reports of one device.
pub struct BluetoothDevice {
    /// Whether the device reports itself connected (false when it does not say).
    pub connected: bool,
    /// Its name, when it reports one (empty when the name is not text).
    pub name: Option<String>,
}

/// Whether any device is connected.
pub open spec fn any_connected(devices: Seq<BluetoothDevice>) -> bool {
    exists|i: int| 0 <= i < devices.len() && #[trigger] devices[i].connected
}

/// The names of the connected devices that report one, in order.
pub open spec fn connected_names(devices: Seq<BluetoothDevice>) -> Seq<Seq<char>>
    decreases devices.len(),
{
    if devices.len() == 0 {
        Seq::empty()
    } else {
        let rest = connected_names(devices.drop_last());
        let d = devices.last();
        if d.connected && d.name is Some {
            rest.push(d.name->0@)
        } else {
            rest
        }
    }
}

/// Whether any device is connected, and the names of the connected devices.
pub fn summarize_bluetooth(devices: &Vec<BluetoothDevice>) -> (summary: (bool, Vec<String>))
    ensures
        summary.0 == any_connected(devices@),
        summary.1@.map_values(|n: String| n@) == connected_names(devices@),
{
    let mut connected = false;
    let mut names: Vec<String> = Vec::new();
    let mut i: usize = 0;
    while i < devices.len()
        invariant
            i <= devices.len(),
            connected == any_connected(devices@.take(i as int)),
            names@.map_values(|n: String| n@) == connected_names(devices@.take(i as int)),
        decreases devices.len() - i,
    {
        let d = &devices[i];
        proof {
            assert(devices@.take(i + 1).drop_last() =~= devices@.take(i as int));
            assert(devices@.take(i + 1).last() == devices@[i as int]);
            if any_connected(devices@.take(i as int)) {
                let k = choose|k: int| 0 <= k < i && #[trigger] devices@.take(i as int)[k].connected;
                assert(devices@.take(i + 1)[k].connected);
            }
            if any_connected(devices@.take(i + 1)) && !d.connected {
                let k = choose|k: int| 0 <= k < i + 1 && #[trigger] devices@.take(i + 1)[k].connected;
                assert(devices@.take(i as int)[k].connected);
            }
        }
        if d.connected {
            connected = true;
            match &d.name {
                Some(n) => {
                    let copy = n.clone();
                    names.push(copy);
                    proof {
                        assert(names@.map_values(|n: String| n@) =~= connected_names(
                            devices@.take(i as int),
                        ).push(n@));
                    }
                },
                None => {},
            }
        }
        i = i + 1;
    }
    assert(devices@.take(devices.len() as int) =~= devices@);
    (connected, names)
}

} // verus!
