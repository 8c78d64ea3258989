//! Profiles: what a profile file as a whole describes.
//!
//! A file describes a profile where it sets `Interface`, to whatever value.
//! Every other option may be left out: the connection kind is then `Unknown`,
//! as it is where the file names a kind that is not recognized, and the texts
//! are empty. The status is not written in the file and is always `Unknown`.
//!
//! A file that sets `Security` to `wpa-configsection` keeps its security
//! settings in a separate section that is not read here, so it describes no
//! profile. One such line is enough, wherever in the file it stands and
//! whatever a later line sets `Security` to.

use crate::connection::{kind_of, Connection, Status};
use crate::parse::{assignment_of, assignments, parse_line_chars, Key};
use crate::text::{chars_of, lines_of, split_lines, views};
use vstd::prelude::*;

verus! {

/// std's `PathBuf`, declared so that a profile can carry the path of the file
/// it was read from. Nothing is stated of a path: the library hands it on and
/// never looks inside.
#[verifier::external_type_specification]
#[verifier::external_body]
pub struct ExPathBuf(std::path::PathBuf);

/// The options of one netctl profile, as its file sets them.
#[derive(Debug, PartialEq, Eq)]
pub struct Profile {
    pub path: std::path::PathBuf,
    pub description: String,
    pub connection: Connection,
    pub interface: String,
    pub security: String,
    pub essid: String,
    pub status: Status,
}

/// What a profile holds.
pub struct ProfileView {
    pub path: std::path::PathBuf,
    pub description: Seq<char>,
    pub connection: Connection,
    pub interface: Seq<char>,
    pub security: Seq<char>,
    pub essid: Seq<char>,
    pub status: Status,
}

impl View for Profile {
    type V = ProfileView;

    open spec fn view(&self) -> ProfileView {
        ProfileView {
            path: self.path,
            description: self.description@,
            connection: self.connection,
            interface: self.interface@,
            security: self.security@,
            essid: self.essid@,
            status: self.status,
        }
    }
}

impl Profile {
    /// A profile of the given connection kind on the given interface, with
    /// every other option empty and the status unknown.
    pub fn new(path: std::path::PathBuf, connection: Connection, interface: String) -> (r: Profile)
        ensures
            r@ == (ProfileView {
                path,
                description: Seq::empty(),
                connection,
                interface: interface@,
                security: Seq::empty(),
                essid: Seq::empty(),
                status: Status::Unknown,
            }),
    {
        Profile {
            path,
            description: String::new(),
            connection,
            interface,
            security: String::new(),
            essid: String::new(),
            status: Status::Unknown,
        }
    }
}

/// The values read so far, one slot for each option.
#[derive(Debug)]
pub struct Settings {
    pub description: Option<String>,
    pub connection: Option<String>,
    pub interface: Option<String>,
    pub security: Option<String>,
    pub essid: Option<String>,
}

impl Settings {
    /// The slot of an option.
    pub open spec fn slot(self, key: Key) -> Option<String> {
        match key {
            Key::Description => self.description,
            Key::Connection => self.connection,
            Key::Interface => self.interface,
            Key::Security => self.security,
            Key::Essid => self.essid,
        }
    }

    /// No option set.
    pub fn new() -> (r: Settings)
        ensures
            r@ == Map::<Key, Seq<char>>::empty(),
    {
        let r = Settings {
            description: None,
            connection: None,
            interface: None,
            security: None,
            essid: None,
        };
        assert(r@ =~= Map::<Key, Seq<char>>::empty());
        r
    }

    /// Sets an option, in place of what it was set to before.
    pub fn set(&mut self, key: Key, value: String)
        ensures
            final(self)@ == old(self)@.insert(key, value@),
    {
        match key {
            Key::Description => {
                self.description = Some(value);
            },
            Key::Connection => {
                self.connection = Some(value);
            },
            Key::Interface => {
                self.interface = Some(value);
            },
            Key::Security => {
                self.security = Some(value);
            },
            Key::Essid => {
                self.essid = Some(value);
            },
        }
        assert(self@ =~= old(self)@.insert(key, value@));
    }
}

impl View for Settings {
    type V = Map<Key, Seq<char>>;

    /// The options that are set, each with its value.
    open spec fn view(&self) -> Map<Key, Seq<char>> {
        Map::new(|key: Key| self.slot(key) is Some, |key: Key| self.slot(key)->0@)
    }
}

/// The value that marks a profile whose security settings stand in a separate
/// WPA configuration section.
pub open spec fn sentinel() -> Seq<char> {
    "wpa-configsection"@
}

/// Whether some line sets `Security` to the sentinel.
pub open spec fn delegates_security(lines: Seq<Seq<char>>) -> bool {
    exists|i: int|
        0 <= i < lines.len() && #[trigger] assignment_of(lines[i]) == Some(
            (Key::Security, sentinel()),
        )
}

/// The value that `set` holds for an option, empty where it holds none.
pub open spec fn text_of(set: Map<Key, Seq<char>>, key: Key) -> Seq<char> {
    if set.contains_key(key) {
        set[key]
    } else {
        Seq::empty()
    }
}

/// The connection kind that `set` names, `Unknown` where it names none.
pub open spec fn connection_in(set: Map<Key, Seq<char>>) -> Connection {
    if set.contains_key(Key::Connection) {
        kind_of(set[Key::Connection])
    } else {
        Connection::Unknown
    }
}

/// The profile that the lines of a file describe, if any.
pub open spec fn profile_from(path: std::path::PathBuf, lines: Seq<Seq<char>>) -> Option<
    ProfileView,
> {
    let set = assignments(lines);
    if delegates_security(lines) || !set.contains_key(Key::Interface) {
        None
    } else {
        Some(
            ProfileView {
                path,
                description: text_of(set, Key::Description),
                connection: connection_in(set),
                interface: set[Key::Interface],
                security: text_of(set, Key::Security),
                essid: text_of(set, Key::Essid),
                status: Status::Unknown,
            },
        )
    }
}

/// The profile that the text of a file describes, if any.
pub open spec fn profile_of(path: std::path::PathBuf, text: Seq<char>) -> Option<ProfileView> {
    profile_from(path, lines_of(text))
}

/// The string in a slot, or the empty string.
fn text_or_empty(slot: Option<String>) -> (r: String)
    ensures
        r@ == match slot {
            Some(value) => value@,
            None => Seq::empty(),
        },
{
    match slot {
        Some(value) => value,
        None => String::new(),
    }
}

/// Reads the profile that the text of a profile file describes. There is none
/// where a line sets `Security` to `wpa-configsection`, or where no line sets
/// `Interface`.
pub fn get_profile(path: std::path::PathBuf, config: &str) -> (r: Option<Profile>)
    ensures
        match r {
            Some(profile) => profile_of(path, config@) == Some(profile@),
            None => profile_of(path, config@) is None,
        },
{
    let text = chars_of(config);
    let lines = split_lines(text.as_slice());
    let sentinel = "wpa-configsection".to_owned();
    let mut settings = Settings::new();
    let mut i: usize = 0;
    while i < lines.len()
        invariant
            i <= lines@.len(),
            views(lines@) == lines_of(config@),
            sentinel@ == self::sentinel(),
            settings@ == assignments(views(lines@).take(i as int)),
            !delegates_security(views(lines@).take(i as int)),
        decreases lines@.len() - i,
    {
        proof {
            let upto = views(lines@).take(i + 1);
            assert(upto.drop_last() == views(lines@).take(i as int));
            assert(upto.last() == views(lines@)[i as int]);
        }
        if let Some((key, value)) = parse_line_chars(lines[i]) {
            if matches!(key, Key::Security) && value == sentinel {
                assert(assignment_of(views(lines@)[i as int]) == Some((Key::Security, sentinel@)));
                return None;
            }
            settings.set(key, value);
        }
        assert(!delegates_security(views(lines@).take(i + 1))) by {
            let upto = views(lines@).take(i + 1);
            if delegates_security(upto) {
                let j = choose|j: int|
                    0 <= j < upto.len() && #[trigger] assignment_of(upto[j]) == Some(
                        (Key::Security, self::sentinel()),
                    );
                if j < i {
                    assert(views(lines@).take(i as int)[j] == upto[j]);
                }
            }
        }
        i += 1;
    }
    assert(views(lines@).take(i as int) == views(lines@));
    let Settings { description, connection, interface, security, essid } = settings;
    match interface {
        Some(interface) => {
            let connection = match connection {
                Some(name) => Connection::from_name(name.as_str()),
                None => Connection::Unknown,
            };
            let mut profile = Profile::new(path, connection, interface);
            profile.description = text_or_empty(description);
            profile.security = text_or_empty(security);
            profile.essid = text_or_empty(essid);
            Some(profile)
        },
        None => None,
    }
}

/// The profiles of the files that describe one, in the order of the files.
pub open spec fn listed(sources: Seq<(std::path::PathBuf, String)>) -> Seq<ProfileView>
    decreases sources.len(),
{
    if sources.len() == 0 {
        Seq::empty()
    } else {
        let before = listed(sources.drop_last());
        match profile_of(sources.last().0, sources.last().1@) {
            Some(profile) => before.push(profile),
            None => before,
        }
    }
}

/// What a sequence of profiles holds.
pub open spec fn profile_views(profiles: Seq<Profile>) -> Seq<ProfileView> {
    Seq::new(profiles.len(), |i: int| profiles[i]@)
}

/// Reads the profiles of a set of files, each given by its path and its text.
/// A file that describes no profile is passed over; the others keep their
/// order.
pub fn list_profiles(sources: Vec<(std::path::PathBuf, String)>) -> (profiles: Vec<Profile>)
    ensures
        profile_views(profiles@) == listed(sources@),
{
    let mut profiles: Vec<Profile> = Vec::new();
    for source in it: sources
        invariant
            it.seq() == sources@,
            profile_views(profiles@) == listed(sources@.take(it.index() as int)),
    {
        proof {
            let upto = sources@.take(it.index() + 1);
            assert(upto.drop_last() == sources@.take(it.index() as int));
            assert(upto.last() == source);
        }
        let ghost before = profile_views(profiles@);
        let (path, text) = source;
        if let Some(profile) = get_profile(path, text.as_str()) {
            profiles.push(profile);
            assert(profile_views(profiles@) == before.push(profile@));
        }
    }
    assert(sources@.take(sources@.len() as int) == sources@);
    profiles
}

} // verus!
