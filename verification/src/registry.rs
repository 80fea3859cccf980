//! The operations of the registry.
//!
//! An account is created once for an identity. After that anybody may submit a
//! file hash with its tag to it, and anybody may ask to have an entry of it
//! verified. Each operation names its parties in a context value; a party
//! that has to be the caller is given as an `AuthenticatedIdentity`.
//!
//! The key of a tag is an identity's bytes: signing uses the identity of the
//! signer, and verifying uses the identity of whoever asks for the
//! verification. An entry therefore verifies for the identity that signed it.

use crate::account::{
    lemma_extends_is_an_order, lemma_submission_beyond_capacity_fails,
    lemma_submissions_are_kept_in_order, lemma_verify_changes_one_entry,
    lemma_verify_unknown_hash, Submission, UserAccountView,
};
use crate::error::RegistryError;
use crate::identity::{AuthenticatedIdentity, Identity};
use crate::mac::{compute_mac, mac_text};
use crate::store::AccountStore;
use vstd::prelude::*;

verus! {

/// The parties to `initialize`: none.
#[derive(Clone, Copy, Debug)]
pub struct Initialize {}

/// The parties to `create_user_account`.
#[derive(Clone, Copy, Debug)]
pub struct CreateUserAccount {
    /// Who the account is created for.
    pub user: AuthenticatedIdentity,
    /// The number of entries that the account is provisioned for.
    pub capacity: usize,
}

/// The parties to `send_file_hash`.
#[derive(Clone, Copy, Debug)]
pub struct SendFileHash {
    /// Who submits the entry.
    pub sender: AuthenticatedIdentity,
    /// Whose account receives it.
    pub recipient: Identity,
}

/// The parties to `verify_file_hash`.
#[derive(Clone, Copy, Debug)]
pub struct VerifyFileHash {
    /// Whose account holds the entry.
    pub recipient: Identity,
    /// Who asks for the verification; the tag is checked under this identity.
    pub signer: AuthenticatedIdentity,
}

/// The parties to `sign_file_hash`.
#[derive(Clone, Copy, Debug)]
pub struct SignFileHash {
    /// Who signs; the tag is computed under this identity.
    pub signer: AuthenticatedIdentity,
}

/// What creating an account for `user` gives: `AlreadyExists` where there is
/// one, success otherwise.
pub open spec fn create_result(accounts: Map<Identity, UserAccountView>, user: Identity) -> Result<
    (),
    RegistryError,
> {
    if accounts.contains_key(user) {
        Err(RegistryError::AlreadyExists)
    } else {
        Ok(())
    }
}

/// The accounts after creating one for `user`: with a new, empty account of
/// that capacity where `user` had none, and unchanged where it had one.
pub open spec fn after_create(
    accounts: Map<Identity, UserAccountView>,
    user: Identity,
    capacity: nat,
) -> Map<Identity, UserAccountView> {
    if accounts.contains_key(user) {
        accounts
    } else {
        accounts.insert(user, UserAccountView::empty(user, capacity))
    }
}

/// What a submission to `recipient` gives: `NotFound` where `recipient` has no
/// account, `CapacityExceeded` where its account is full, success otherwise.
pub open spec fn send_result(accounts: Map<Identity, UserAccountView>, recipient: Identity) -> Result<
    (),
    RegistryError,
> {
    if accounts.contains_key(recipient) {
        accounts[recipient].receive_result()
    } else {
        Err(RegistryError::NotFound)
    }
}

/// The accounts after the submission by `sender` of `hash` with `signed_hash`
/// to `recipient`: the entry is at the end of the recipient's account where
/// the submission succeeds, and nothing has changed where it fails.
pub open spec fn after_send(
    accounts: Map<Identity, UserAccountView>,
    sender: Identity,
    recipient: Identity,
    hash: Seq<char>,
    signed_hash: Seq<char>,
) -> Map<Identity, UserAccountView> {
    if send_result(accounts, recipient) is Ok {
        accounts.insert(recipient, accounts[recipient].after_receive(hash, signed_hash, sender))
    } else {
        accounts
    }
}

/// What the request of `signer` to verify `hash` in the account of `recipient`
/// gives: `NotFound` where `recipient` has no account; else what verifying
/// `hash` in that account under the bytes of `signer` gives.
pub open spec fn verify_result(
    accounts: Map<Identity, UserAccountView>,
    recipient: Identity,
    signer: Identity,
    hash: Seq<char>,
) -> Result<(), RegistryError> {
    if accounts.contains_key(recipient) {
        accounts[recipient].verify_result(hash, signer.key())
    } else {
        Err(RegistryError::NotFound)
    }
}

/// The accounts after that request: the earliest entry with the hash in the
/// account of `recipient` is verified where the request succeeds, and nothing
/// has changed where it fails.
pub open spec fn after_verify(
    accounts: Map<Identity, UserAccountView>,
    recipient: Identity,
    signer: Identity,
    hash: Seq<char>,
) -> Map<Identity, UserAccountView> {
    if verify_result(accounts, recipient, signer, hash) is Ok {
        accounts.insert(recipient, accounts[recipient].after_verify(hash, signer.key()))
    } else {
        accounts
    }
}

/// Whether `later` may be what the accounts `earlier` have become: every
/// account is still there, for the same owner and with the same capacity, and
/// every entry is still in its place, still verified if it was.
pub open spec fn registry_extends(
    later: Map<Identity, UserAccountView>,
    earlier: Map<Identity, UserAccountView>,
) -> bool {
    forall|identity: Identity| #[trigger]
        earlier.contains_key(identity) ==> later.contains_key(identity) && later[identity].extends(
            earlier[identity],
        )
}

/// Creating an account for an identity twice fails the second time with
/// `AlreadyExists`, whatever the first attempt gave, and the second attempt
/// changes nothing.
pub proof fn lemma_second_creation_fails(
    accounts: Map<Identity, UserAccountView>,
    user: Identity,
    capacity: nat,
    second_capacity: nat,
)
    ensures
        create_result(after_create(accounts, user, capacity), user) == Err::<(), RegistryError>(
            RegistryError::AlreadyExists,
        ),
        after_create(after_create(accounts, user, capacity), user, second_capacity) == after_create(
            accounts,
            user,
            capacity,
        ),
{
}

/// The accounts after the submissions of `submissions` to `recipient`, one
/// after the other.
pub open spec fn after_sends(
    accounts: Map<Identity, UserAccountView>,
    recipient: Identity,
    submissions: Seq<Submission>,
) -> Map<Identity, UserAccountView>
    decreases submissions.len(),
{
    if submissions.len() == 0 {
        accounts
    } else {
        let last = submissions.last();
        after_send(
            after_sends(accounts, recipient, submissions.drop_last()),
            last.sender,
            recipient,
            last.hash,
            last.signed_hash,
        )
    }
}

/// Submissions to a recipient change the account of the recipient, as
/// submissions to that account do, and no other account.
pub proof fn lemma_sends_reach_the_recipient(
    accounts: Map<Identity, UserAccountView>,
    recipient: Identity,
    submissions: Seq<Submission>,
)
    requires
        accounts.contains_key(recipient),
    ensures
        after_sends(accounts, recipient, submissions) == accounts.insert(
            recipient,
            accounts[recipient].after_all(submissions),
        ),
    decreases submissions.len(),
{
    if submissions.len() == 0 {
        assert(accounts =~= accounts.insert(recipient, accounts[recipient]));
    } else {
        let earlier = submissions.drop_last();
        lemma_sends_reach_the_recipient(accounts, recipient, earlier);
        let before = after_sends(accounts, recipient, earlier);
        let last = submissions.last();
        assert(after_send(before, last.sender, recipient, last.hash, last.signed_hash)
            =~= accounts.insert(recipient, accounts[recipient].after_all(submissions)));
    }
}

/// Submitting N file hashes to an account that has room for them leaves the
/// account with its earlier entries followed by these N, in the order of
/// submission and each unverified; every one of the submissions succeeds.
pub proof fn lemma_sent_hashes_are_kept_in_order(
    accounts: Map<Identity, UserAccountView>,
    recipient: Identity,
    submissions: Seq<Submission>,
)
    requires
        accounts.contains_key(recipient),
        accounts[recipient].received_files.len() + submissions.len() <= accounts[recipient].capacity,
    ensures
        after_sends(accounts, recipient, submissions).contains_key(recipient),
        after_sends(accounts, recipient, submissions)[recipient].received_files
            == accounts[recipient].received_files + submissions.map_values(
            |submission: Submission| submission.entry(),
        ),
        after_sends(accounts, recipient, submissions)[recipient].received_files.len()
            == accounts[recipient].received_files.len() + submissions.len(),
        forall|i: int|
            0 <= i < submissions.len() ==> send_result(
                #[trigger] after_sends(accounts, recipient, submissions.take(i)),
                recipient,
            ) is Ok,
{
    lemma_sends_reach_the_recipient(accounts, recipient, submissions);
    lemma_submissions_are_kept_in_order(accounts[recipient], submissions);
    assert forall|i: int| 0 <= i < submissions.len() implies send_result(
        #[trigger] after_sends(accounts, recipient, submissions.take(i)),
        recipient,
    ) is Ok by {
        lemma_sends_reach_the_recipient(accounts, recipient, submissions.take(i));
        assert(accounts[recipient].after_all(submissions.take(i)).receive_result() is Ok);
    }
}

/// Once submissions have used up the room of an account, one more submission
/// to it fails with `CapacityExceeded` and changes nothing: the account holds
/// as many entries as before.
pub proof fn lemma_send_beyond_capacity_fails(
    accounts: Map<Identity, UserAccountView>,
    recipient: Identity,
    submissions: Seq<Submission>,
    another: Submission,
)
    requires
        accounts.contains_key(recipient),
        accounts[recipient].received_files.len() + submissions.len() == accounts[recipient].capacity,
    ensures
        send_result(after_sends(accounts, recipient, submissions), recipient) == Err::<
            (),
            RegistryError,
        >(RegistryError::CapacityExceeded),
        after_sends(accounts, recipient, submissions.push(another)) == after_sends(
            accounts,
            recipient,
            submissions,
        ),
        after_sends(accounts, recipient, submissions.push(another))[recipient].received_files.len()
            == accounts[recipient].capacity,
{
    lemma_sends_reach_the_recipient(accounts, recipient, submissions);
    lemma_sends_reach_the_recipient(accounts, recipient, submissions.push(another));
    lemma_submission_beyond_capacity_fails(accounts[recipient], submissions, another);
}

/// A request to verify a hash fails with `NotFound` exactly where the
/// recipient has no account or its account holds no entry with the hash. A
/// request that fails, with this or another error, changes nothing.
pub proof fn lemma_verify_request_not_found(
    accounts: Map<Identity, UserAccountView>,
    recipient: Identity,
    signer: Identity,
    hash: Seq<char>,
)
    ensures
        verify_result(accounts, recipient, signer, hash) == Err::<(), RegistryError>(
            RegistryError::NotFound,
        ) <==> (!accounts.contains_key(recipient) || forall|i: int|
            !accounts[recipient].matches_at(hash, i)),
        verify_result(accounts, recipient, signer, hash) is Err ==> after_verify(
            accounts,
            recipient,
            signer,
            hash,
        ) == accounts,
{
    if accounts.contains_key(recipient) {
        lemma_verify_unknown_hash(accounts[recipient], hash, signer.key());
    }
}

/// A request to verify a hash that succeeds marks the earliest entry with the
/// hash in the account of the recipient, and changes no other entry and no
/// other account.
pub proof fn lemma_verify_request_changes_one_entry(
    accounts: Map<Identity, UserAccountView>,
    recipient: Identity,
    signer: Identity,
    hash: Seq<char>,
)
    requires
        verify_result(accounts, recipient, signer, hash) is Ok,
    ensures
        accounts.contains_key(recipient),
        accounts[recipient].first_match(hash) is Some,
        accounts[recipient].is_first_match(hash, accounts[recipient].first_match(hash).unwrap()),
        after_verify(accounts, recipient, signer, hash) == accounts.insert(
            recipient,
            accounts[recipient].with_verified(accounts[recipient].first_match(hash).unwrap()),
        ),
{
    lemma_verify_changes_one_entry(accounts[recipient], hash, signer.key());
}

/// What the accounts have become, they stay: `registry_extends` holds of any
/// accounts and themselves, and of the first and the last of three states
/// where it holds of each and the next.
pub proof fn lemma_registry_extends_is_an_order(
    first: Map<Identity, UserAccountView>,
    second: Map<Identity, UserAccountView>,
    third: Map<Identity, UserAccountView>,
)
    requires
        registry_extends(second, first),
        registry_extends(third, second),
    ensures
        registry_extends(first, first),
        registry_extends(third, first),
{
    assert forall|identity: Identity| #[trigger] first.contains_key(identity) implies third.contains_key(
        identity,
    ) && third[identity].extends(first[identity]) by {
        assert(second.contains_key(identity));
        lemma_extends_is_an_order(first[identity], second[identity], third[identity]);
    }
    assert forall|identity: Identity| #[trigger] first.contains_key(identity) implies first[identity].extends(
        first[identity],
    ) by {
        lemma_extends_is_an_order(first[identity], second[identity], third[identity]);
    }
}

/// Does nothing, and succeeds.
pub fn initialize(_ctx: Initialize) -> (initialized: Result<(), RegistryError>)
    ensures
        initialized is Ok,
{
    Ok(())
}

/// Creates the account of `ctx.user`, with room for `ctx.capacity` entries and
/// none in it. Fails with `AlreadyExists`, changing nothing, exactly where
/// that identity already has an account.
pub fn create_user_account(store: &mut AccountStore, ctx: CreateUserAccount) -> (created: Result<
    (),
    RegistryError,
>)
    requires
        old(store).wf(),
    ensures
        final(store).wf(),
        created == create_result(old(store)@, ctx.user.identity()),
        final(store)@ == after_create(old(store)@, ctx.user.identity(), ctx.capacity as nat),
        registry_extends(final(store)@, old(store)@),
{
    match store.create(ctx.user.key(), ctx.capacity) {
        Ok(_) => Ok(()),
        Err(e) => Err(e),
    }
}

/// Submits `file_hash` with the tag `signed_hash` to the account of
/// `ctx.recipient`, in the name of `ctx.sender`: the entry goes to the end of
/// that account, unverified. Neither text is inspected, and the same hash may
/// be submitted any number of times, by anybody. Fails with `NotFound` where
/// the recipient has no account and with `CapacityExceeded` where its account
/// is full; a failure changes nothing.
pub fn send_file_hash(
    store: &mut AccountStore,
    ctx: SendFileHash,
    file_hash: String,
    signed_hash: String,
) -> (sent: Result<(), RegistryError>)
    requires
        old(store).wf(),
    ensures
        final(store).wf(),
        sent == send_result(old(store)@, ctx.recipient),
        final(store)@ == after_send(
            old(store)@,
            ctx.sender.identity(),
            ctx.recipient,
            file_hash@,
            signed_hash@,
        ),
        registry_extends(final(store)@, old(store)@),
{
    let sender = ctx.sender.key();
    match store.get_mut(&ctx.recipient) {
        Ok(recipient) => recipient.receive(file_hash, signed_hash, sender),
        Err(e) => Err(e),
    }
}

/// Verifies, at the request of `ctx.signer`, the earliest entry with the hash
/// `file_hash` in the account of `ctx.recipient`: checks the tag of that entry
/// against its hash under the bytes of `ctx.signer`, and marks the entry
/// verified where the check succeeds. No other entry is looked at or changed,
/// and an entry that is verified stays so.
///
/// Fails with `NotFound` where the recipient has no account or the account no
/// entry with the hash, with `MalformedTag` where the tag of the entry is not
/// hexadecimal text, and with `InvalidSignature` where it is not the tag of
/// the hash under that key; a failure changes nothing.
pub fn verify_file_hash(store: &mut AccountStore, ctx: VerifyFileHash, file_hash: String) -> (verified:
    Result<(), RegistryError>)
    requires
        old(store).wf(),
    ensures
        final(store).wf(),
        verified == verify_result(old(store)@, ctx.recipient, ctx.signer.identity(), file_hash@),
        final(store)@ == after_verify(
            old(store)@,
            ctx.recipient,
            ctx.signer.identity(),
            file_hash@,
        ),
        registry_extends(final(store)@, old(store)@),
{
    let key = ctx.signer.key().to_bytes();
    match store.get_mut(&ctx.recipient) {
        Ok(recipient) => recipient.verify_file(&file_hash, key.as_slice()),
        Err(e) => Err(e),
    }
}

/// Computes the tag of `file_hash` under the bytes of `ctx.signer`. Always
/// succeeds, and touches no account.
pub fn sign_file_hash(ctx: SignFileHash, file_hash: String) -> (signed: Result<String, RegistryError>)
    ensures
        signed matches Ok(tag) && tag@ == mac_text(file_hash@, ctx.signer.identity().key()),
{
    let key = ctx.signer.key().to_bytes();
    Ok(compute_mac(file_hash.as_str(), key.as_slice()))
}

} // verus!
