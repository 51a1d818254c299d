//! The command line: what can be asked for, how a credential is found, and how
//! a mount is set up.

use crate::crypto::identity::Identity;
use crate::crypto::slots::Unlock;
use crate::crypto::slots::UnlockModel;
use crate::text::same_text;
use vstd::prelude::*;

verus! {

/// Why a command line cannot be carried out.
#[derive(Clone, Copy, Debug, PartialEq, Eq, Structural)]
pub enum CliError {
    /// A password is required and there is no terminal to ask for it.
    PasswordRequired,
    /// The password could not be read from the terminal.
    PasswordRead,
}

/// A whole command line.
#[derive(Debug)]
pub struct Cli {
    /// What is asked for.
    pub command: Command,
}

/// What can be asked for.
#[derive(Debug)]
pub enum Command {
    /// Mount a volume.
    Mount(MountArgs),
    /// Create an identity.
    Keygen(KeygenArgs),
    /// List the key slots of a volume.
    Slots(VolumeArgs),
    /// Give a recipient their own slot.
    Share(ShareArgs),
    /// Remove a slot.
    Revoke(RevokeArgs),
    /// Replace the password slot.
    Passwd(PasswdArgs),
    /// Retire the current master key.
    Rekey(PasswdArgs),
}

/// What opens a volume: a password, or the file of an identity.
#[derive(Debug)]
pub struct Credential {
    /// The password.
    pub password: Option<String>,
    /// The path of the identity.
    pub identity: Option<Vec<u8>>,
}

/// How a volume is mounted.
#[derive(Debug)]
pub struct MountArgs {
    /// The directory that holds the volume.
    pub backend: Vec<u8>,
    /// The directory where the volume is mounted.
    pub mountpoint: Vec<u8>,
    /// What opens the volume.
    pub credential: Credential,
    /// Whether a volume is created where there is none.
    pub init: bool,
    /// Extra mount options.
    pub options: Vec<String>,
}

/// Where an identity is written.
#[derive(Debug)]
pub struct KeygenArgs {
    /// The path of the private identity.
    pub out: Vec<u8>,
}

/// Which volume is meant.
#[derive(Debug)]
pub struct VolumeArgs {
    /// The directory that holds the volume.
    pub backend: Vec<u8>,
}

/// Whom a volume is shared with.
#[derive(Debug)]
pub struct ShareArgs {
    /// The directory that holds the volume.
    pub backend: Vec<u8>,
    /// The path of the recipient's public identity.
    pub to: Vec<u8>,
    /// The label of the new slot.
    pub label: Option<String>,
    /// What opens the volume.
    pub credential: Credential,
}

/// Which slot is removed.
#[derive(Debug)]
pub struct RevokeArgs {
    /// The directory that holds the volume.
    pub backend: Vec<u8>,
    /// The number of the slot.
    pub slot: usize,
    /// What opens the volume.
    pub credential: Credential,
}

/// Which volume gets another password or master key.
#[derive(Debug)]
pub struct PasswdArgs {
    /// The directory that holds the volume.
    pub backend: Vec<u8>,
    /// What opens the volume.
    pub credential: Credential,
}

/// What a credential without a password ends up with, given what asking for one
/// led to.
pub open spec fn resolved(password: Option<Seq<char>>, prompted: Result<Seq<char>, CliError>) -> Result<
    Option<Seq<char>>,
    CliError,
> {
    match password {
        Some(p) if p.len() > 0 => Ok(password),
        _ => match prompted {
            Ok(p) => Ok(Some(p)),
            Err(e) => Err(e),
        },
    }
}

/// The text of an optional string.
pub open spec fn text_of(s: Option<String>) -> Option<Seq<char>> {
    match s {
        Some(s) => Some(s@),
        None => None,
    }
}

/// The text of a string that asking may have led to.
pub open spec fn answer_of(s: Result<String, CliError>) -> Result<Seq<char>, CliError> {
    match s {
        Ok(s) => Ok(s@),
        Err(e) => Err(e),
    }
}

/// The password that asking on the terminal leads to: there has to be a
/// terminal, and something has to be read from it.
pub fn prompt_password(is_terminal: bool, typed: Option<String>) -> (r: Result<String, CliError>)
    ensures
        match r {
            Ok(password) => is_terminal && text_of(typed) == Some(password@),
            Err(CliError::PasswordRequired) => !is_terminal,
            Err(e) => is_terminal && typed is None && e == CliError::PasswordRead,
        },
{
    if !is_terminal {
        return Err(CliError::PasswordRequired);
    }
    match typed {
        Some(password) => Ok(password),
        None => Err(CliError::PasswordRead),
    }
}

impl Credential {
    /// Whether there is a password that is not empty.
    pub open spec fn has_password(&self) -> bool {
        self.password matches Some(p) && p@.len() > 0
    }

    /// Whether a password has to be asked for: none was given, and no identity
    /// either.
    pub fn needs_prompt(&self) -> (r: bool)
        ensures
            r == (!self.has_password() && self.identity is None),
    {
        if self.identity.is_some() {
            return false;
        }
        match &self.password {
            Some(password) => password.as_str().is_empty(),
            None => true,
        }
    }

    /// Fills in the password that was asked for, where one is needed.
    pub fn resolve(&mut self, prompted: Result<String, CliError>) -> (r: Result<(), CliError>)
        ensures
            final(self).identity == old(self).identity,
            if old(self).identity is Some {
                r is Ok && text_of(final(self).password) == text_of(old(self).password)
            } else {
                match (r, resolved(text_of(old(self).password), answer_of(prompted))) {
                    (Ok(()), Ok(password)) => text_of(final(self).password) == password,
                    (Err(e), Err(cause)) => e == cause && text_of(final(self).password) == text_of(
                        old(self).password,
                    ),
                    _ => false,
                }
            },
    {
        if !self.needs_prompt() {
            return Ok(());
        }
        match prompted {
            Ok(password) => {
                self.password = Some(password);
                Ok(())
            },
            Err(e) => Err(e),
        }
    }

    /// What opens the volume: the identity, where its file was read, else the
    /// password.
    pub fn unlock<'a>(&'a self, identity: Option<&'a Identity>) -> (r: Result<Unlock<'a>, CliError>)
        ensures
            match identity {
                Some(identity) => r matches Ok(unlock) && unlock@ == UnlockModel::Identity(identity@),
                None => match (r, text_of(self.password)) {
                    (Ok(unlock), Some(password)) => unlock@ == UnlockModel::Password(password),
                    (Err(e), None) => e == CliError::PasswordRequired,
                    _ => false,
                },
            },
    {
        match identity {
            Some(identity) => Ok(Unlock::Identity(identity)),
            None => match self.require_password() {
                Ok(password) => Ok(Unlock::Password(password)),
                Err(e) => Err(e),
            },
        }
    }

    /// The password, if one was given.
    pub fn require_password(&self) -> (r: Result<&str, CliError>)
        ensures
            match r {
                Ok(password) => text_of(self.password) == Some(password@),
                Err(e) => self.password is None && e == CliError::PasswordRequired,
            },
    {
        match &self.password {
            Some(password) => Ok(password.as_str()),
            None => Err(CliError::PasswordRequired),
        }
    }
}

impl MountArgs {
    /// Finds the password: the one that was given, if it is not empty, else the
    /// one that was asked for.
    pub fn resolve_password(&mut self, prompted: Result<String, CliError>) -> (r: Result<(), CliError>)
        ensures
            match (r, resolved(text_of(old(self).credential.password), answer_of(prompted))) {
                (Ok(()), Ok(password)) => text_of(final(self).credential.password) == password,
                (Err(e), Err(cause)) => e == cause && text_of(final(self).credential.password) == text_of(
                    old(self).credential.password,
                ),
                _ => false,
            },
            final(self).backend == old(self).backend,
            final(self).mountpoint == old(self).mountpoint,
            final(self).credential.identity == old(self).credential.identity,
            final(self).init == old(self).init,
            final(self).options == old(self).options,
    {
        let given: bool = match &self.credential.password {
            Some(password) => !password.as_str().is_empty(),
            None => false,
        };
        if given {
            return Ok(());
        }
        match prompted {
            Ok(password) => {
                self.credential.password = Some(password);
                Ok(())
            },
            Err(e) => Err(e),
        }
    }
}

/// What mounting begins with.
#[derive(Clone, Copy, Debug, PartialEq, Eq, Structural)]
pub enum MountAction {
    /// Open the volume that is there.
    Unlock,
    /// Create a volume.
    Create,
    /// Refuse: there is no volume, and none is to be created.
    NoVolume,
}

/// Decides what mounting begins with. A volume that is there is never created
/// anew.
pub fn mount_action(header_exists: bool, init: bool) -> (action: MountAction)
    ensures
        action == MountAction::Unlock <==> header_exists,
        action == MountAction::Create <==> !header_exists && init,
        action == MountAction::NoVolume <==> !header_exists && !init,
{
    if header_exists {
        MountAction::Unlock
    } else if init {
        MountAction::Create
    } else {
        MountAction::NoVolume
    }
}

/// An option of a mount.
#[derive(Debug)]
pub enum MountFlag {
    /// The name of the filesystem.
    FsName,
    /// The type of the filesystem.
    Subtype,
    /// Reading does not change access times.
    NoAtime,
    /// Mount for reading only.
    ReadOnly,
    /// Mount for reading and writing.
    ReadWrite,
    /// An option that is passed on as it is.
    Custom(String),
}

/// What an option of a mount says.
pub enum MountFlagModel {
    /// The name of the filesystem.
    FsName,
    /// The type of the filesystem.
    Subtype,
    /// Reading does not change access times.
    NoAtime,
    /// Mount for reading only.
    ReadOnly,
    /// Mount for reading and writing.
    ReadWrite,
    /// An option that is passed on as it is.
    Custom(Seq<char>),
}

impl View for MountFlag {
    type V = MountFlagModel;

    open spec fn view(&self) -> MountFlagModel {
        match self {
            MountFlag::FsName => MountFlagModel::FsName,
            MountFlag::Subtype => MountFlagModel::Subtype,
            MountFlag::NoAtime => MountFlagModel::NoAtime,
            MountFlag::ReadOnly => MountFlagModel::ReadOnly,
            MountFlag::ReadWrite => MountFlagModel::ReadWrite,
            MountFlag::Custom(option) => MountFlagModel::Custom(option@),
        }
    }
}

/// The options that are passed on: all but the two that say whether the mount
/// is for reading only.
pub open spec fn custom_flags(options: Seq<Seq<char>>) -> Seq<MountFlagModel>
    decreases options.len(),
{
    if options.len() == 0 {
        Seq::empty()
    } else {
        let rest = custom_flags(options.drop_last());
        if options.last() == "ro"@ || options.last() == "rw"@ {
            rest
        } else {
            rest.push(MountFlagModel::Custom(options.last()))
        }
    }
}

/// All options of a mount.
pub open spec fn all_flags(options: Seq<Seq<char>>) -> Seq<MountFlagModel> {
    seq![
        MountFlagModel::FsName,
        MountFlagModel::Subtype,
        MountFlagModel::NoAtime,
        if options.contains("ro"@) {
            MountFlagModel::ReadOnly
        } else {
            MountFlagModel::ReadWrite
        },
    ] + custom_flags(options)
}

/// The texts of strings.
pub open spec fn texts(options: Seq<String>) -> Seq<Seq<char>> {
    options.map_values(|s: String| s@)
}

/// The options of a mount: the fixed ones, whether it is for reading only, and
/// those that are passed on.
pub fn mount_options(options: &Vec<String>) -> (flags: Vec<MountFlag>)
    ensures
        flags@.map_values(|f: MountFlag| f@) == all_flags(texts(options@)),
{
    let ghost given = texts(options@);
    let mut read_only: bool = false;
    let mut n: usize = 0;
    while n < options.len()
        invariant
            n <= options@.len(),
            given == texts(options@),
            given.len() == options@.len(),
            read_only == given.take(n as int).contains("ro"@),
        decreases options@.len() - n,
    {
        let is_ro: bool = same_text(options[n].as_str(), "ro");
        proof {
            assert(given[n as int] == options@[n as int]@);
            let shorter = given.take(n as int);
            let longer = given.take(n + 1);
            assert(longer =~= shorter.push(given[n as int]));
            if shorter.contains("ro"@) {
                let i = choose|i: int| 0 <= i < shorter.len() && shorter[i] == "ro"@;
                assert(longer[i] == "ro"@);
            }
            assert(longer[n as int] == given[n as int]);
            if longer.contains("ro"@) && given[n as int] != "ro"@ {
                let i = choose|i: int| 0 <= i < longer.len() && longer[i] == "ro"@;
                assert(shorter[i] == "ro"@);
            }
        }
        read_only = read_only || is_ro;
        n = n + 1;
    }
    assert(given.take(n as int) =~= given);
    let mut flags: Vec<MountFlag> = Vec::new();
    flags.push(MountFlag::FsName);
    flags.push(MountFlag::Subtype);
    flags.push(MountFlag::NoAtime);
    if read_only {
        flags.push(MountFlag::ReadOnly);
    } else {
        flags.push(MountFlag::ReadWrite);
    }
    let ghost fixed = flags@.map_values(|f: MountFlag| f@);
    n = 0;
    assert(given.take(0) =~= Seq::empty());
    assert(flags@.map_values(|f: MountFlag| f@) =~= fixed + custom_flags(given.take(0)));
    while n < options.len()
        invariant
            n <= options@.len(),
            given == texts(options@),
            given.len() == options@.len(),
            flags@.map_values(|f: MountFlag| f@) == fixed + custom_flags(given.take(n as int)),
        decreases options@.len() - n,
    {
        let ghost before = flags@;
        let option: &str = options[n].as_str();
        let skipped: bool = same_text(option, "ro") || same_text(option, "rw");
        if !skipped {
            flags.push(MountFlag::Custom(option.to_owned()));
        }
        proof {
            let longer = given.take(n + 1);
            assert(longer.drop_last() =~= given.take(n as int));
            assert(longer.last() == options@[n as int]@);
            if !skipped {
                assert(flags@.map_values(|f: MountFlag| f@) =~= before.map_values(|f: MountFlag| f@).push(
                    MountFlagModel::Custom(options@[n as int]@),
                ));
            }
            assert(flags@.map_values(|f: MountFlag| f@) =~= fixed + custom_flags(longer));
        }
        n = n + 1;
    }
    assert(given.take(n as int) =~= given);
    flags
}

/// Where any of the given options is `ro`, wherever it stands, a mount is for
/// reading only; where none is, it is for reading and writing.
pub proof fn law_mount_is_read_only_on_request(options: &Vec<String>, flags: Vec<MountFlag>)
    requires
        call_ensures(mount_options, (options,), flags),
    ensures
        forall|i: int| 0 <= i < options@.len() && (#[trigger] options@[i])@ == "ro"@ ==> {
            &&& exists|k: int| 0 <= k < flags@.len() && (#[trigger] flags@[k]) is ReadOnly
            &&& forall|k: int| 0 <= k < flags@.len() ==> !((#[trigger] flags@[k]) is ReadWrite)
        },
        (forall|i: int| 0 <= i < options@.len() ==> (#[trigger] options@[i])@ != "ro"@) ==> {
            &&& exists|k: int| 0 <= k < flags@.len() && (#[trigger] flags@[k]) is ReadWrite
            &&& forall|k: int| 0 <= k < flags@.len() ==> !((#[trigger] flags@[k]) is ReadOnly)
        },
{
    let given = texts(options@);
    let models = flags@.map_values(|f: MountFlag| f@);
    lemma_custom_flags(given);
    assert(models.len() >= 4);
    assert(models[3] == flags@[3]@);
    assert forall|k: int| 4 <= k < flags@.len() implies flags@[k] is Custom by {
        assert(models[k] == flags@[k]@);
        assert(models[k] == custom_flags(given)[k - 4]);
    }
    assert(models[0] == flags@[0]@ && models[1] == flags@[1]@ && models[2] == flags@[2]@);
    assert forall|i: int| 0 <= i < options@.len() && (#[trigger] options@[i])@ == "ro"@ implies given.contains("ro"@) by {
        assert(given[i] == options@[i]@);
    }
    if forall|i: int| 0 <= i < options@.len() ==> (#[trigger] options@[i])@ != "ro"@ {
        if given.contains("ro"@) {
            let i = choose|i: int| 0 <= i < given.len() && given[i] == "ro"@;
            assert(options@[i]@ == "ro"@);
        }
    }
}

/// Only options that are passed on come out of the given ones.
proof fn lemma_custom_flags(options: Seq<Seq<char>>)
    ensures
        forall|k: int| 0 <= k < custom_flags(options).len() ==> (#[trigger] custom_flags(options)[k]) is Custom,
    decreases options.len(),
{
    if options.len() > 0 {
        lemma_custom_flags(options.drop_last());
    }
}

/// A mount without options has its four fixed flags; each further option is passed
/// on at the end, except that `rw` changes nothing and `ro` only makes the mount
/// one for reading.
pub proof fn law_each_option_counts(
    none: &Vec<String>,
    fixed: Vec<MountFlag>,
    fewer: &Vec<String>,
    before: Vec<MountFlag>,
    more: &Vec<String>,
    after: Vec<MountFlag>,
    option: Seq<char>,
)
    requires
        call_ensures(mount_options, (none,), fixed),
        none@.len() == 0,
        call_ensures(mount_options, (fewer,), before),
        call_ensures(mount_options, (more,), after),
        texts(more@) == texts(fewer@).push(option),
    ensures
        fixed@.len() == 4,
        fixed@[0] is FsName && fixed@[1] is Subtype && fixed@[2] is NoAtime && fixed@[3] is ReadWrite,
        before@.len() >= 4,
        option == "rw"@ || option == "ro"@ ==> after@.len() == before@.len(),
        option != "rw"@ && option != "ro"@ ==> {
            &&& after@.len() == before@.len() + 1
            &&& after@.last()@ == MountFlagModel::Custom(option)
        },
        forall|k: int| 0 <= k < before@.len() && (k != 3 || option != "ro"@) ==> after@[k]@ == (#[trigger] before@[k])@,
{
    reveal_strlit("ro");
    reveal_strlit("rw");
    assert("ro"@[1] != "rw"@[1]);
    let given = texts(fewer@);
    let longer = texts(more@);
    assert(texts(none@) =~= Seq::empty());
    let made = before@.map_values(|f: MountFlag| f@);
    let made_more = after@.map_values(|f: MountFlag| f@);
    let made_fixed = fixed@.map_values(|f: MountFlag| f@);
    assert(made_fixed =~= all_flags(Seq::empty()));
    assert forall|k: int| 0 <= k < 4 implies made_fixed[k] == (#[trigger] fixed@[k])@ by {}
    assert(fixed@[0]@ == made_fixed[0] && fixed@[1]@ == made_fixed[1] && fixed@[2]@ == made_fixed[2] && fixed@[3]@
        == made_fixed[3]);
    assert(!texts(none@).contains("ro"@));
    assert(longer.drop_last() =~= given);
    assert(longer.last() == option);
    assert(longer.contains("ro"@) <==> given.contains("ro"@) || option == "ro"@) by {
        if given.contains("ro"@) {
            let i = choose|i: int| 0 <= i < given.len() && given[i] == "ro"@;
            assert(longer[i] == "ro"@);
        }
        if option == "ro"@ {
            assert(longer[given.len() as int] == "ro"@);
        }
        if longer.contains("ro"@) && option != "ro"@ {
            let i = choose|i: int| 0 <= i < longer.len() && longer[i] == "ro"@;
            assert(given[i] == "ro"@);
        }
    }
    assert(made.len() == before@.len() && made_more.len() == after@.len());
    if option != "rw"@ && option != "ro"@ {
        assert(made_more[after@.len() - 1] == after@.last()@);
    }
    assert forall|k: int| 0 <= k < before@.len() && (k != 3 || option != "ro"@) implies after@[k]@ == (
        #[trigger] before@[k])@ by {
        assert(made[k] == before@[k]@);
        assert(made_more[k] == after@[k]@);
    }
}

} // verus!
