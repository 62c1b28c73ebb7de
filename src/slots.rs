use vstd::prelude::*;

use slotmap::{DefaultKey, Key, KeyData, SlotMap};
use tokio::sync::mpsc;

use crate::cancel::Cancel;
use crate::protocol::{ToUser, UserID};

verus! {

/// A live user as the directory holds it: its handle, its mailbox, and the
/// guard whose dropping stops its task.
pub struct User {
    pub id: UserID,
    pub mailbox: mpsc::Sender<ToUser>,
    pub cancel: Cancel,
}

impl User {
    pub fn new(id: UserID, mailbox: mpsc::Sender<ToUser>, cancel: Cancel) -> (r: User)
        ensures
            r.id == id,
    {
        User { id, mailbox, cancel }
    }

    /// Another handle on this user's mailbox.
    pub fn get_mailbox(&self) -> mpsc::Sender<ToUser> {
        self.mailbox.clone()
    }
}

/// The user table: slotmap's generational arena of `User`s, keyed by its
/// default key. Verus does not take slotmap's `SlotMap` as a declared type
/// (its key bound), so the arena sits in this opaque struct.
#[verifier::external_body]
pub struct UserTable {
    map: SlotMap<DefaultKey, User>,
}

/// The 64-bit encodings (slotmap's `KeyData::as_ffi`) of the table's live keys.
pub uninterp spec fn live_keys(t: UserTable) -> Set<u64>;

/// The form of every key encoding the table hands out: slotmap keeps the
/// generation of an occupied slot odd, and the encoding puts it in the high half.
pub open spec fn issued_form(k: u64) -> bool {
    (k >> 32u64) % 2 == 1
}

/// Relies on slotmap::SlotMap::new: an empty table.
#[verifier::external_body]
pub(crate) fn table_new() -> (r: UserTable)
    ensures
        live_keys(r) == Set::<u64>::empty(),
{
    UserTable { map: SlotMap::new() }
}

/// Relies on slotmap::SlotMap::len: the number of live entries.
#[verifier::external_body]
pub(crate) fn table_len(t: &UserTable) -> (r: usize)
    ensures
        r == live_keys(*t).len(),
{
    t.map.len()
}

/// Relies on slotmap::SlotMap::insert_with_key: the new entry gets a key that
/// is not live (a vacant slot, or a new one). Slot 0 is a sentinel that never
/// holds an entry, so at most `u32::MAX - 1` entries fit; the call panics
/// when that many are live. The entry is built with its own key.
#[verifier::external_body]
pub(crate) fn table_insert(t: &mut UserTable, mailbox: mpsc::Sender<ToUser>, cancel: Cancel) -> (r: UserID)
    requires
        live_keys(*old(t)).finite(),
        live_keys(*old(t)).len() < u32::MAX - 1,
    ensures
        issued_form(r.key),
        !live_keys(*old(t)).contains(r.key),
        live_keys(*final(t)) == live_keys(*old(t)).insert(r.key),
        live_keys(*final(t)).finite(),
{
    let k = t.map.insert_with_key(|k| User::new(UserID { key: k.data().as_ffi() }, mailbox, cancel));
    UserID { key: k.data().as_ffi() }
}

/// Relies on slotmap::SlotMap::get, with `KeyData::from_ffi`, which gives
/// back the key of an encoding that `as_ffi` produced. Entries enter the
/// table only through `table_insert`, which builds each with its own key.
#[verifier::external_body]
pub(crate) fn table_get<'a>(t: &'a UserTable, id: UserID) -> (r: Option<&'a User>)
    requires
        issued_form(id.key),
    ensures
        r.is_some() == live_keys(*t).contains(id.key),
        r.is_some() ==> r.unwrap().id == id,
{
    t.map.get(KeyData::from_ffi(id.key).into())
}

/// Relies on slotmap::SlotMap::remove, with `KeyData::from_ffi`: the key
/// stops being live.
#[verifier::external_body]
pub(crate) fn table_remove(t: &mut UserTable, id: UserID) -> (r: Option<User>)
    requires
        issued_form(id.key),
    ensures
        r.is_some() == live_keys(*old(t)).contains(id.key),
        live_keys(*final(t)) == live_keys(*old(t)).remove(id.key),
        live_keys(*old(t)).finite() ==> live_keys(*final(t)).finite(),
{
    t.map.remove(KeyData::from_ffi(id.key).into())
}

} // verus!
