use vstd::prelude::*;

verus! {

/// A byte string as IRC uses it: no promise of UTF-8.
#[derive(Clone, Debug, PartialEq, Eq, PartialOrd, Ord, Hash)]
pub struct IRCString {
    pub bytes: Vec<u8>,
}

impl View for IRCString {
    type V = Seq<u8>;

    open spec fn view(&self) -> Seq<u8> {
        self.bytes@
    }
}

/// ASCII upper case of one byte; every other byte is kept.
pub open spec fn upper_byte(b: u8) -> u8 {
    if 97 <= b && b <= 122 {
        (b - 32) as u8
    } else {
        b
    }
}

/// ASCII upper case of a byte string.
pub open spec fn upper_seq(s: Seq<u8>) -> Seq<u8> {
    s.map_values(|b: u8| upper_byte(b))
}

impl IRCString {
    pub fn new(bytes: Vec<u8>) -> (r: IRCString)
        ensures
            r@ == bytes@,
    {
        IRCString { bytes }
    }

    /// Folds the ASCII lower-case letters to upper case, in place.
    pub fn upper_inplace(&mut self)
        ensures
            final(self)@ == upper_seq(old(self)@),
    {
        let n = self.bytes.len();
        let mut i: usize = 0;
        while i < n
            invariant
                n == old(self)@.len(),
                self@.len() == n,
                0 <= i <= n,
                forall|j: int| 0 <= j < i ==> self@[j] == upper_byte(old(self)@[j]),
                forall|j: int| i <= j < n ==> self@[j] == old(self)@[j],
            decreases n - i,
        {
            let b = self.bytes[i];
            if 97 <= b && b <= 122 {
                self.bytes.set(i, b - 32);
            }
            i = i + 1;
        }
        assert(self@ =~= upper_seq(old(self)@));
    }
}

/// Handle of a user: the slot key of the directory's user table, as the
/// table's 64-bit key encoding (slot index and generation).
#[derive(Clone, Copy, Debug, PartialEq, Eq, Hash, Structural)]
pub struct UserID {
    pub key: u64,
}

/// Handle of a room.
#[derive(Clone, Copy, Debug, PartialEq, Eq, Hash, Structural)]
pub struct RoomID {
    pub key: u64,
}

/// One protocol message: optional source prefix, command token, arguments.
#[derive(Clone, Debug)]
pub struct Command {
    pub pfx: Option<IRCString>,
    pub cmd: IRCString,
    pub args: Vec<IRCString>,
}

/// A command as plain byte sequences.
pub struct CommandModel {
    pub pfx: Option<Seq<u8>>,
    pub cmd: Seq<u8>,
    pub args: Seq<Seq<u8>>,
}

pub open spec fn args_view(args: Seq<IRCString>) -> Seq<Seq<u8>> {
    args.map_values(|a: IRCString| a@)
}

pub open spec fn opt_view(o: Option<IRCString>) -> Option<Seq<u8>> {
    match o {
        Some(s) => Some(s@),
        None => None,
    }
}

impl View for Command {
    type V = CommandModel;

    open spec fn view(&self) -> CommandModel {
        CommandModel { pfx: opt_view(self.pfx), cmd: self.cmd@, args: args_view(self.args@) }
    }
}

/// Messages from a user to a room.
pub enum U2R {
    Kill {},
    Join { user: UserID, user_mailbox: tokio::sync::mpsc::Sender<(RoomID, R2U)> },
    Part { user: UserID },
    Privmsg { user: UserID, message: IRCString },
}

/// Messages a room fans out to its members.
#[derive(Clone, Debug)]
pub enum R2U {
    Join { user: UserID },
    Part { user: UserID },
    Privmsg { user: UserID, message: IRCString },
}

/// Messages from one user to another.
#[derive(Clone, Debug)]
pub enum U2U {
    Privmsg { message: IRCString },
}

/// Everything a user's mailbox can carry.
#[allow(inconsistent_fields)]
#[derive(Clone, Debug)]
pub enum ToUser {
    Room { room_id: RoomID, message: R2U },
    User { nick: IRCString, message: U2U },
}

/// Byte-exact equality of two byte strings.
pub fn bytes_eq(a: &[u8], b: &[u8]) -> (r: bool)
    ensures
        r == (a@ == b@),
{
    if a.len() != b.len() {
        return false;
    }
    let mut i: usize = 0;
    while i < a.len()
        invariant
            a@.len() == b@.len(),
            0 <= i <= a@.len(),
            forall|j: int| 0 <= j < i ==> a@[j] == b@[j],
        decreases a@.len() - i,
    {
        if a[i] != b[i] {
            return false;
        }
        i = i + 1;
    }
    assert(a@ =~= b@);
    true
}

/// A copy of the bytes `a[lo..hi]`.
pub fn copy_range(a: &[u8], lo: usize, hi: usize) -> (r: Vec<u8>)
    requires
        lo <= hi <= a@.len(),
    ensures
        r@ == a@.subrange(lo as int, hi as int),
{
    let mut out: Vec<u8> = Vec::new();
    let mut i: usize = lo;
    while i < hi
        invariant
            lo <= i <= hi <= a@.len(),
            out@ == a@.subrange(lo as int, i as int),
        decreases hi - i,
    {
        out.push(a[i]);
        i = i + 1;
        assert(out@ =~= a@.subrange(lo as int, i as int));
    }
    out
}

/// Appends the bytes of `b` to `out`.
pub fn append_bytes(out: &mut Vec<u8>, b: &[u8])
    ensures
        final(out)@ == old(out)@ + b@,
{
    let mut i: usize = 0;
    while i < b.len()
        invariant
            0 <= i <= b@.len(),
            out@ == old(out)@ + b@.subrange(0, i as int),
        decreases b@.len() - i,
    {
        out.push(b[i]);
        i = i + 1;
        assert(out@ =~= old(out)@ + b@.subrange(0, i as int));
    }
    assert(b@.subrange(0, b@.len() as int) =~= b@);
}

impl IRCString {
    /// A copy with the same bytes.
    pub fn duplicate(&self) -> (r: IRCString)
        ensures
            r@ == self@,
    {
        proof {
            assert(self.bytes@.subrange(0, self.bytes@.len() as int) =~= self.bytes@);
        }
        IRCString { bytes: copy_range(self.bytes.as_slice(), 0, self.bytes.len()) }
    }
}

} // verus!
