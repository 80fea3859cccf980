//! File entries and the account that collects them.
//!
//! An account belongs to one identity and holds, in the order in which they
//! arrived, the file hashes that were sent to it. An entry starts unverified
//! and becomes verified when its tag has been checked successfully; it never
//! goes back, and it is never removed.

use crate::error::RegistryError;
use crate::identity::Identity;
use crate::mac::{
    check_mac, hmac_sha256, lemma_other_key_verifies_only_on_equal_codes, lemma_own_tag_verifies,
    mac_check, mac_text,
};
use vstd::prelude::*;
use vstd::utf8::*;

verus! {

/// One file hash that was sent to an account.
#[derive(Debug, PartialEq, Eq)]
pub struct FileInfo {
    /// The fingerprint of the file, as the sender gave it.
    pub hash: String,
    /// The tag that the sender gave with it.
    pub signed_hash: String,
    /// Who sent it.
    pub sender: Identity,
    /// Whether the tag has been checked successfully.
    pub is_verified: bool,
}

/// What a `FileInfo` holds.
pub struct FileInfoView {
    pub hash: Seq<char>,
    pub signed_hash: Seq<char>,
    pub sender: Identity,
    pub is_verified: bool,
}

impl View for FileInfo {
    type V = FileInfoView;

    open spec fn view(&self) -> FileInfoView {
        FileInfoView {
            hash: self.hash@,
            signed_hash: self.signed_hash@,
            sender: self.sender,
            is_verified: self.is_verified,
        }
    }
}

impl Clone for FileInfo {
    fn clone(&self) -> (copy: FileInfo)
        ensures
            copy@ == self@,
    {
        FileInfo {
            hash: self.hash.clone(),
            signed_hash: self.signed_hash.clone(),
            sender: self.sender,
            is_verified: self.is_verified,
        }
    }
}

impl Default for FileInfo {
    /// An unverified entry with empty texts, sent by the identity of 32 zero
    /// bytes.
    fn default() -> (file: FileInfo)
        ensures
            file@.hash == Seq::<char>::empty(),
            file@.signed_hash == Seq::<char>::empty(),
            file@.sender.key() == Seq::new(32, |i: int| 0u8),
            !file@.is_verified,
    {
        let file = FileInfo {
            hash: String::new(),
            signed_hash: String::new(),
            sender: Identity { bytes: [0u8;32] },
            is_verified: false,
        };
        assert(file@.sender.key() =~= Seq::new(32, |i: int| 0u8));
        file
    }
}

impl FileInfoView {
    /// The entry as it is when it has just been submitted.
    pub open spec fn submitted(hash: Seq<char>, signed_hash: Seq<char>, sender: Identity) -> FileInfoView {
        FileInfoView { hash, signed_hash, sender, is_verified: false }
    }

    /// The same entry, verified.
    pub open spec fn verified(self) -> FileInfoView {
        FileInfoView { is_verified: true, ..self }
    }

    /// Whether this entry may be what `earlier` has become: the same hash, tag
    /// and sender, and still verified if it was.
    pub open spec fn continues(self, earlier: FileInfoView) -> bool {
        &&& self.hash == earlier.hash
        &&& self.signed_hash == earlier.signed_hash
        &&& self.sender == earlier.sender
        &&& earlier.is_verified ==> self.is_verified
    }
}

/// The record of one participant: who owns it, what was sent to it, and how
/// many entries it was provisioned for.
#[derive(Debug, PartialEq, Eq)]
pub struct UserAccount {
    /// The owner. Set when the account is created and never changed.
    pub username: Identity,
    /// The entries, in the order in which they were submitted.
    pub received_files: Vec<FileInfo>,
    /// The number of entries that the account has room for.
    pub capacity: usize,
}

/// What a `UserAccount` holds.
pub struct UserAccountView {
    pub username: Identity,
    pub received_files: Seq<FileInfoView>,
    pub capacity: nat,
}

impl View for UserAccount {
    type V = UserAccountView;

    open spec fn view(&self) -> UserAccountView {
        UserAccountView {
            username: self.username,
            received_files: Seq::new(
                self.received_files@.len(),
                |i: int| self.received_files@[i]@,
            ),
            capacity: self.capacity as nat,
        }
    }
}

impl Clone for UserAccount {
    fn clone(&self) -> (copy: UserAccount)
        ensures
            copy@ == self@,
    {
        let mut files: Vec<FileInfo> = Vec::new();
        let mut i: usize = 0;
        while i < self.received_files.len()
            invariant
                i <= self.received_files@.len(),
                files@.len() == i,
                forall|j: int| 0 <= j < i ==> files@[j]@ == self.received_files@[j]@,
            decreases self.received_files@.len() - i,
        {
            files.push(self.received_files[i].clone());
            i = i + 1;
        }
        let copy = UserAccount { username: self.username, received_files: files, capacity: self.capacity };
        assert(copy@.received_files =~= self@.received_files);
        copy
    }
}

impl UserAccountView {
    /// The account of `username` as it is created: no entries yet.
    pub open spec fn empty(username: Identity, capacity: nat) -> UserAccountView {
        UserAccountView { username, received_files: Seq::empty(), capacity }
    }

    /// Whether the account has no room for another entry.
    pub open spec fn is_full(self) -> bool {
        self.received_files.len() >= self.capacity
    }

    /// Whether the entry at `index` has the hash `hash`.
    pub open spec fn matches_at(self, hash: Seq<char>, index: int) -> bool {
        0 <= index < self.received_files.len() && self.received_files[index].hash == hash
    }

    /// Whether the entry at `index` is the earliest one with the hash `hash`.
    pub open spec fn is_first_match(self, hash: Seq<char>, index: int) -> bool {
        &&& self.matches_at(hash, index)
        &&& forall|earlier: int| 0 <= earlier < index ==> !self.matches_at(hash, earlier)
    }

    /// The index of the earliest entry with the hash `hash`, if any entry has
    /// it.
    pub open spec fn first_match(self, hash: Seq<char>) -> Option<int> {
        if exists|index: int| self.is_first_match(hash, index) {
            Some(choose|index: int| self.is_first_match(hash, index))
        } else {
            None
        }
    }

    /// The account with one more entry at the end.
    pub open spec fn with_entry(self, entry: FileInfoView) -> UserAccountView {
        UserAccountView { received_files: self.received_files.push(entry), ..self }
    }

    /// The account with the entry at `index` verified.
    pub open spec fn with_verified(self, index: int) -> UserAccountView
        recommends
            0 <= index < self.received_files.len(),
    {
        UserAccountView {
            received_files: self.received_files.update(index, self.received_files[index].verified()),
            ..self
        }
    }

    /// What a submission to the account gives: `CapacityExceeded` where the
    /// account is full, success otherwise.
    pub open spec fn receive_result(self) -> Result<(), RegistryError> {
        if self.is_full() {
            Err(RegistryError::CapacityExceeded)
        } else {
            Ok(())
        }
    }

    /// The account after the submission of `hash` with `signed_hash` by
    /// `sender`: with that entry at the end, unverified, where there was room
    /// for it, and unchanged where there was none.
    pub open spec fn after_receive(
        self,
        hash: Seq<char>,
        signed_hash: Seq<char>,
        sender: Identity,
    ) -> UserAccountView {
        if self.is_full() {
            self
        } else {
            self.with_entry(FileInfoView::submitted(hash, signed_hash, sender))
        }
    }

    /// What recording the outcome `check` of a tag check for the entry at
    /// `index` gives: `NotFound` where there is no such entry, else the
    /// outcome itself.
    pub open spec fn record_result(self, index: int, check: Result<(), RegistryError>) -> Result<
        (),
        RegistryError,
    > {
        if 0 <= index < self.received_files.len() {
            check
        } else {
            Err(RegistryError::NotFound)
        }
    }

    /// The account after recording the outcome `check` for the entry at
    /// `index`: that entry verified where it exists and the check succeeded,
    /// and nothing changed otherwise.
    pub open spec fn after_record(self, index: int, check: Result<(), RegistryError>) -> UserAccountView {
        if self.record_result(index, check) is Ok {
            self.with_verified(index)
        } else {
            self
        }
    }

    /// What verifying `hash` under `key` gives: `NotFound` where no entry has
    /// the hash; else the outcome of checking the tag of the earliest entry
    /// that has it against the hash, under `key`.
    pub open spec fn verify_result(self, hash: Seq<char>, key: Seq<u8>) -> Result<(), RegistryError> {
        match self.first_match(hash) {
            None => Err(RegistryError::NotFound),
            Some(index) => mac_check(hash, self.received_files[index].signed_hash, key),
        }
    }

    /// The account after verifying `hash` under `key`: the earliest entry with
    /// the hash verified where the check succeeded, and nothing changed
    /// otherwise.
    pub open spec fn after_verify(self, hash: Seq<char>, key: Seq<u8>) -> UserAccountView {
        if self.verify_result(hash, key) is Ok {
            self.with_verified(self.first_match(hash).unwrap())
        } else {
            self
        }
    }

    /// Whether this account may be what `earlier` has become: the same owner
    /// and capacity, every entry of `earlier` still in its place, with the
    /// same hash, tag and sender, and still verified if it was.
    pub open spec fn extends(self, earlier: UserAccountView) -> bool {
        &&& self.username == earlier.username
        &&& self.capacity == earlier.capacity
        &&& earlier.received_files.len() <= self.received_files.len()
        &&& forall|i: int|
            0 <= i < earlier.received_files.len() ==> (#[trigger] self.received_files[i]).continues(
                earlier.received_files[i],
            )
    }
}

/// At most one index is the first match of a hash, so `first_match` is that
/// index where there is one.
pub proof fn lemma_first_match_is(account: UserAccountView, hash: Seq<char>, index: int)
    requires
        account.is_first_match(hash, index),
    ensures
        account.first_match(hash) == Some(index),
{
    let chosen = choose|i: int| account.is_first_match(hash, i);
    assert(account.is_first_match(hash, chosen));
    if chosen < index {
        assert(account.matches_at(hash, chosen));
    } else if index < chosen {
        assert(account.matches_at(hash, index));
    }
}

/// Where no entry has the hash, there is no first match.
pub proof fn lemma_first_match_none(account: UserAccountView, hash: Seq<char>)
    requires
        forall|i: int| !account.matches_at(hash, i),
    ensures
        account.first_match(hash) is None,
{
    if exists|index: int| account.is_first_match(hash, index) {
        let index = choose|index: int| account.is_first_match(hash, index);
        assert(account.matches_at(hash, index));
    }
}

/// Where some entry has the hash, there is a first match, at that entry or
/// before it.
pub proof fn lemma_first_match_found(account: UserAccountView, hash: Seq<char>, index: int)
    requires
        account.matches_at(hash, index),
    ensures
        account.first_match(hash) is Some,
        account.is_first_match(hash, account.first_match(hash).unwrap()),
        account.first_match(hash).unwrap() <= index,
    decreases index,
{
    if exists|earlier: int| 0 <= earlier < index && account.matches_at(hash, earlier) {
        let earlier = choose|earlier: int| 0 <= earlier < index && account.matches_at(hash, earlier);
        lemma_first_match_found(account, hash, earlier);
    } else {
        assert(account.is_first_match(hash, index));
        lemma_first_match_is(account, hash, index);
    }
}

/// One submission: a hash, its tag, and who sends them.
pub struct Submission {
    pub hash: Seq<char>,
    pub signed_hash: Seq<char>,
    pub sender: Identity,
}

impl Submission {
    /// The entry that the submission becomes.
    pub open spec fn entry(self) -> FileInfoView {
        FileInfoView::submitted(self.hash, self.signed_hash, self.sender)
    }
}

impl UserAccountView {
    /// The account after the submissions of `submissions`, one after the
    /// other.
    pub open spec fn after_all(self, submissions: Seq<Submission>) -> UserAccountView
        decreases submissions.len(),
    {
        if submissions.len() == 0 {
            self
        } else {
            let last = submissions.last();
            self.after_all(submissions.drop_last()).after_receive(
                last.hash,
                last.signed_hash,
                last.sender,
            )
        }
    }
}

/// Submissions that the account has room for all succeed, and leave the
/// account with its earlier entries followed by one unverified entry for each
/// submission, in the order of submission. A new account that was sent N
/// hashes so holds exactly these N entries.
pub proof fn lemma_submissions_are_kept_in_order(account: UserAccountView, submissions: Seq<Submission>)
    requires
        account.received_files.len() + submissions.len() <= account.capacity,
    ensures
        account.after_all(submissions).received_files == account.received_files + submissions.map_values(
            |submission: Submission| submission.entry(),
        ),
        account.after_all(submissions).received_files.len() == account.received_files.len()
            + submissions.len(),
        forall|i: int|
            0 <= i < submissions.len() ==> #[trigger] account.after_all(
                submissions.take(i),
            ).receive_result() is Ok,
        forall|i: int|
            0 <= i < submissions.len() ==> !(#[trigger] account.after_all(
                submissions,
            ).received_files[account.received_files.len() + i]).is_verified,
        account.after_all(submissions).extends(account),
    decreases submissions.len(),
{
    let entries = submissions.map_values(|submission: Submission| submission.entry());
    if submissions.len() == 0 {
        assert(account.received_files + entries =~= account.received_files);
    } else {
        let earlier = submissions.drop_last();
        lemma_submissions_are_kept_in_order(account, earlier);
        let before = account.after_all(earlier);
        assert(!before.is_full());
        assert(account.after_all(submissions).received_files =~= account.received_files + entries);
        assert forall|i: int| 0 <= i < submissions.len() implies #[trigger] account.after_all(
            submissions.take(i),
        ).receive_result() is Ok by {
            if i < earlier.len() {
                assert(submissions.take(i) =~= earlier.take(i));
            } else {
                assert(submissions.take(i) =~= earlier);
            }
        }
    }
}

/// Once submissions have used up the room of an account, one more submission
/// fails with `CapacityExceeded` and leaves the account as it is, with as
/// many entries as before.
pub proof fn lemma_submission_beyond_capacity_fails(
    account: UserAccountView,
    submissions: Seq<Submission>,
    another: Submission,
)
    requires
        account.received_files.len() + submissions.len() == account.capacity,
    ensures
        account.after_all(submissions).receive_result() == Err::<(), RegistryError>(
            RegistryError::CapacityExceeded,
        ),
        account.after_all(submissions.push(another)) == account.after_all(submissions),
        account.after_all(submissions.push(another)).received_files.len() == account.capacity,
{
    lemma_submissions_are_kept_in_order(account, submissions);
    assert(submissions.push(another).drop_last() =~= submissions);
}

/// No submissions, however many and whether they succeed or fail, leave an
/// account with more entries than it has room for.
pub proof fn lemma_capacity_is_never_exceeded(account: UserAccountView, submissions: Seq<Submission>)
    requires
        account.received_files.len() <= account.capacity,
    ensures
        account.after_all(submissions).received_files.len() <= account.capacity,
        account.after_all(submissions).capacity == account.capacity,
        account.after_all(submissions).extends(account),
    decreases submissions.len(),
{
    if submissions.len() > 0 {
        lemma_capacity_is_never_exceeded(account, submissions.drop_last());
    }
}

/// A successful verification marks the earliest entry with the hash and
/// changes nothing else: exactly one entry is set, and it is the first match.
/// A failed verification changes nothing at all.
pub proof fn lemma_verify_changes_one_entry(account: UserAccountView, hash: Seq<char>, key: Seq<u8>)
    ensures
        match account.verify_result(hash, key) {
            Ok(_) => {
                let index = account.first_match(hash).unwrap();
                let after = account.after_verify(hash, key);
                &&& account.is_first_match(hash, index)
                &&& after.username == account.username
                &&& after.capacity == account.capacity
                &&& after.received_files.len() == account.received_files.len()
                &&& after.received_files[index] == account.received_files[index].verified()
                &&& forall|other: int|
                    0 <= other < account.received_files.len() && other != index
                        ==> #[trigger] after.received_files[other] == account.received_files[other]
            },
            Err(_) => account.after_verify(hash, key) == account,
        },
        account.after_verify(hash, key).extends(account),
{
    if account.verify_result(hash, key) is Ok {
        let index = choose|index: int| account.is_first_match(hash, index);
        assert(account.is_first_match(hash, index));
    }
}

/// Verifying again gives the same result again and changes nothing more.
pub proof fn lemma_verify_again(account: UserAccountView, hash: Seq<char>, key: Seq<u8>)
    ensures
        account.after_verify(hash, key).verify_result(hash, key) == account.verify_result(hash, key),
        account.after_verify(hash, key).after_verify(hash, key) == account.after_verify(hash, key),
{
    if account.verify_result(hash, key) is Ok {
        let index = choose|index: int| account.is_first_match(hash, index);
        assert(account.is_first_match(hash, index));
        let after = account.with_verified(index);
        assert(after.is_first_match(hash, index)) by {
            assert forall|earlier: int| 0 <= earlier < index implies !after.matches_at(hash, earlier) by {
                assert(!account.matches_at(hash, earlier));
            }
        }
        lemma_first_match_is(after, hash, index);
        assert(after.with_verified(index).received_files =~= after.received_files);
    }
}

/// Verification under the key that an entry was signed with succeeds, and
/// verifying again succeeds again.
pub proof fn lemma_verify_accepts_signing_key(
    account: UserAccountView,
    hash: Seq<char>,
    key: Seq<u8>,
    index: int,
)
    requires
        account.is_first_match(hash, index),
        account.received_files[index].signed_hash == mac_text(hash, key),
    ensures
        account.verify_result(hash, key) is Ok,
        account.after_verify(hash, key) == account.with_verified(index),
        account.after_verify(hash, key).verify_result(hash, key) is Ok,
        account.after_verify(hash, key).after_verify(hash, key) == account.after_verify(hash, key),
{
    lemma_first_match_is(account, hash, index);
    lemma_own_tag_verifies(hash, key);
    lemma_verify_again(account, hash, key);
}

/// Verification under a key other than the one that an entry was signed
/// with, under which the hash has another code, fails with
/// `InvalidSignature` and changes nothing.
pub proof fn lemma_verify_rejects_other_key(
    account: UserAccountView,
    hash: Seq<char>,
    signing_key: Seq<u8>,
    key: Seq<u8>,
    index: int,
)
    requires
        account.is_first_match(hash, index),
        account.received_files[index].signed_hash == mac_text(hash, signing_key),
        hmac_sha256(signing_key, encode_utf8(hash)) != hmac_sha256(key, encode_utf8(hash)),
    ensures
        account.verify_result(hash, key) == Err::<(), RegistryError>(RegistryError::InvalidSignature),
        account.after_verify(hash, key) == account,
{
    lemma_first_match_is(account, hash, index);
    lemma_other_key_verifies_only_on_equal_codes(hash, signing_key, key);
}

/// Verification fails with `NotFound` exactly where no entry has the hash,
/// and then changes nothing.
pub proof fn lemma_verify_unknown_hash(account: UserAccountView, hash: Seq<char>, key: Seq<u8>)
    ensures
        account.verify_result(hash, key) == Err::<(), RegistryError>(RegistryError::NotFound) <==> forall|
            i: int,
        | !account.matches_at(hash, i),
        account.verify_result(hash, key) == Err::<(), RegistryError>(RegistryError::NotFound)
            ==> account.after_verify(hash, key) == account,
{
    if forall|i: int| !account.matches_at(hash, i) {
        lemma_first_match_none(account, hash);
    } else {
        let i = choose|i: int| account.matches_at(hash, i);
        lemma_first_match_found(account, hash, i);
    }
}

/// What an account has become, it stays: `extends` holds of an account and
/// itself, and of the first and the last of three accounts where it holds of
/// each and the next.
pub proof fn lemma_extends_is_an_order(
    first: UserAccountView,
    second: UserAccountView,
    third: UserAccountView,
)
    requires
        second.extends(first),
        third.extends(second),
    ensures
        first.extends(first),
        third.extends(first),
{
    assert forall|i: int| 0 <= i < first.received_files.len() implies (
    #[trigger] third.received_files[i]).continues(first.received_files[i]) by {
        assert(second.received_files[i].continues(first.received_files[i]));
        assert(third.received_files[i].continues(second.received_files[i]));
    }
}

impl UserAccount {
    /// Makes the account of `username`, with room for `capacity` entries and
    /// none in it.
    pub fn new(username: Identity, capacity: usize) -> (account: UserAccount)
        ensures
            account@ == UserAccountView::empty(username, capacity as nat),
    {
        let account = UserAccount { username, received_files: Vec::new(), capacity };
        assert(account@.received_files =~= Seq::empty());
        account
    }

    /// Appends the submission of `file_hash` with `signed_hash` by `sender`,
    /// unverified. Fails with `CapacityExceeded`, changing nothing, exactly
    /// where the account already holds as many entries as it has room for.
    /// Neither text is inspected, and a hash may occur any number of times.
    pub fn receive(&mut self, file_hash: String, signed_hash: String, sender: Identity) -> (received:
        Result<(), RegistryError>)
        ensures
            received == old(self)@.receive_result(),
            final(self)@ == old(self)@.after_receive(file_hash@, signed_hash@, sender),
            final(self)@.extends(old(self)@),
    {
        if self.received_files.len() >= self.capacity {
            return Err(RegistryError::CapacityExceeded);
        }
        let entry = FileInfo { hash: file_hash, signed_hash, sender, is_verified: false };
        self.received_files.push(entry);
        assert(self@.received_files =~= old(self)@.received_files.push(entry@));
        Ok(())
    }

    /// Finds the earliest entry whose hash is `file_hash`.
    pub fn find_file(&self, file_hash: &String) -> (found: Option<usize>)
        ensures
            match found {
                Some(index) => self@.first_match(file_hash@) == Some(index as int),
                None => self@.first_match(file_hash@) is None,
            },
            found is None <==> forall|i: int| !self@.matches_at(file_hash@, i),
    {
        let mut index: usize = 0;
        while index < self.received_files.len()
            invariant
                index <= self.received_files@.len(),
                forall|i: int| 0 <= i < index ==> !self@.matches_at(file_hash@, i),
            decreases self.received_files@.len() - index,
        {
            if self.received_files[index].hash == *file_hash {
                proof {
                    assert(self@.matches_at(file_hash@, index as int));
                    lemma_first_match_is(self@, file_hash@, index as int);
                }
                return Some(index);
            }
            index = index + 1;
        }
        proof {
            lemma_first_match_none(self@, file_hash@);
        }
        None
    }

    /// Records the outcome `check` of a tag check for the entry at `index`.
    /// Where the check succeeded, that entry becomes verified (it stays so if
    /// it already was) and no other entry changes. Where it failed, the
    /// failure is handed back and nothing changes. Where there is no entry at
    /// `index`, the result is `NotFound` and nothing changes.
    pub fn record_check(&mut self, index: usize, check: Result<(), RegistryError>) -> (recorded: Result<
        (),
        RegistryError,
    >)
        ensures
            recorded == old(self)@.record_result(index as int, check),
            final(self)@ == old(self)@.after_record(index as int, check),
            final(self)@.extends(old(self)@),
    {
        if index >= self.received_files.len() {
            return Err(RegistryError::NotFound);
        }
        if check.is_ok() {
            self.received_files[index].is_verified = true;
            assert(self@.received_files =~= old(self)@.received_files.update(
                index as int,
                old(self)@.received_files[index as int].verified(),
            ));
        }
        check
    }

    /// Verifies the earliest entry whose hash is `file_hash`: checks its tag
    /// against its hash under `key`, and marks it verified where the check
    /// succeeds. Fails with `NotFound` where no entry has the hash, with
    /// `MalformedTag` where the tag of that entry is not hexadecimal text, and
    /// with `InvalidSignature` where it is the tag of something else; a
    /// failure changes nothing.
    pub fn verify_file(&mut self, file_hash: &String, key: &[u8]) -> (verified: Result<
        (),
        RegistryError,
    >)
        ensures
            verified == old(self)@.verify_result(file_hash@, key@),
            final(self)@ == old(self)@.after_verify(file_hash@, key@),
            final(self)@.extends(old(self)@),
    {
        match self.find_file(file_hash) {
            None => Err(RegistryError::NotFound),
            Some(index) => {
                let check = check_mac(
                    self.received_files[index].hash.as_str(),
                    self.received_files[index].signed_hash.as_str(),
                    key,
                );
                self.record_check(index, check)
            },
        }
    }
}

} // verus!
