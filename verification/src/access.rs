//! Whom the bot listens to: invitations, commands and device verification.
use vstd::prelude::*;

use crate::config::SecurityConfig;
use crate::tables::TextSet;
use crate::text::{
    after_prefix, all_white, is_white, law_trimming_takes_the_white_space_off, optional_text, same_text, trim, trimmed,
};

verus! {

/// The id of a user that ruma reads out of a text, or the text of the error that it reports.
pub uninterp spec fn parsed_user_id(text: Seq<char>) -> Result<Seq<char>, Seq<char>>;

/// Parsing a `ruma::OwnedUserId`, and its text. The result is the one that `parsed_user_id` stands
/// for; an id that comes out is the text that went in.
#[verifier::external_body]
pub(crate) fn parse_user_id(text: &str) -> (r: Result<String, String>)
    ensures
        match r {
            Ok(user) => parsed_user_id(text@) == Ok::<Seq<char>, Seq<char>>(user@) && user@ == text@,
            Err(message) => parsed_user_id(text@) == Err::<Seq<char>, Seq<char>>(message@),
        },
{
    match text.parse::<ruma::OwnedUserId>() {
        Ok(user) => Ok(user.to_string()),
        Err(error) => Err(error.to_string()),
    }
}

/// The users among the results of reading texts.
pub open spec fn users_among(parsed: Seq<Result<Seq<char>, Seq<char>>>) -> Set<Seq<char>> {
    Set::new(|user: Seq<char>| parsed.contains(Ok::<Seq<char>, Seq<char>>(user)))
}

/// The users that a list of texts names. Texts that are no user ids are left out.
pub open spec fn named_users(texts: Seq<String>) -> Set<Seq<char>> {
    users_among(texts.map_values(|text: String| parsed_user_id(text@)))
}

/// The result of reading a text, by its texts.
pub open spec fn parse_view(parsed: Result<String, String>) -> Result<Seq<char>, Seq<char>> {
    match parsed {
        Ok(user) => Ok(user@),
        Err(message) => Err(message@),
    }
}

/// The results of reading texts, by their texts.
pub open spec fn parse_views(parsed: Seq<Result<String, String>>) -> Seq<Result<Seq<char>, Seq<char>>> {
    parsed.map_values(|result: Result<String, String>| parse_view(result))
}

/// Collects the users among the results of reading texts.
pub fn collect_users(parsed: &Vec<Result<String, String>>) -> (r: TextSet)
    ensures
        r@ == users_among(parse_views(parsed@)),
{
    let ghost all = parse_views(parsed@);
    let mut users = TextSet::new();
    let mut i: usize = 0;
    assert(users@ =~= users_among(all.take(0)));
    while i < parsed.len()
        invariant
            i <= parsed@.len(),
            all == parse_views(parsed@),
            users@ == users_among(all.take(i as int)),
        decreases parsed@.len() - i,
    {
        let ghost before = users@;
        match &parsed[i] {
            Ok(user) => {
                users.insert(user.clone());
            },
            Err(_) => {},
        }
        proof {
            let shorter = all.take(i as int);
            let longer = all.take(i + 1);
            assert(longer =~= shorter.push(all[i as int]));
            assert forall|user: Seq<char>| users@.contains(user) <==> #[trigger] users_among(longer).contains(user) by {
                let wanted = Ok::<Seq<char>, Seq<char>>(user);
                if shorter.contains(wanted) {
                    let k = choose|k: int| 0 <= k < shorter.len() && shorter[k] == wanted;
                    assert(longer[k] == wanted);
                }
                if longer.contains(wanted) {
                    let k = choose|k: int| 0 <= k < longer.len() && longer[k] == wanted;
                    if k < i {
                        assert(shorter[k] == wanted);
                    }
                }
                if all[i as int] == wanted {
                    assert(longer[i as int] == wanted);
                }
            }
            assert(users@ =~= users_among(longer));
        }
        i += 1;
    }
    assert(all.take(i as int) =~= all);
    users
}

/// Reads the users that a list of texts names.
pub fn read_users(texts: &Vec<String>) -> (r: TextSet)
    ensures
        r@ == named_users(texts@),
{
    let mut parsed: Vec<Result<String, String>> = Vec::new();
    let mut i: usize = 0;
    while i < texts.len()
        invariant
            i <= texts@.len(),
            parse_views(parsed@) == texts@.take(i as int).map_values(|text: String| parsed_user_id(text@)),
        decreases texts@.len() - i,
    {
        let ghost before = parse_views(parsed@);
        let user = parse_user_id(texts[i].as_str());
        parsed.push(user);
        proof {
            let read = |text: String| parsed_user_id(text@);
            assert(parse_views(parsed@) =~= before.push(parse_view(user)));
            assert(texts@.take(i + 1).map_values(read) =~= texts@.take(i as int).map_values(read).push(
                parsed_user_id(texts@[i as int]@),
            ));
        }
        i += 1;
    }
    assert(texts@.take(i as int) =~= texts@);
    collect_users(&parsed)
}

/// Whom the bot listens to.
pub struct AccessPolicy {
    /// The bot itself.
    pub bot_user: String,
    /// Who may reset the trust in a user.
    pub admin_users: TextSet,
    /// Who may invite the bot; anyone, where nobody is named.
    pub allowed_inviters: TextSet,
}

/// Makes the policy of a configuration. Texts that are no user ids are left out of its lists; it
/// cannot be made where the bot's own id is none, and the text of the error comes back.
pub fn access_policy(user_id: &str, security: &SecurityConfig) -> (r: Result<AccessPolicy, String>)
    ensures
        match parsed_user_id(user_id@) {
            Ok(user) => r matches Ok(policy) && policy.bot_user@ == user && policy.admin_users@ == named_users(
                security.admin_users@,
            ) && policy.allowed_inviters@ == named_users(security.allowed_inviters@),
            Err(message) => r matches Err(text) && text@ == message,
        },
{
    match parse_user_id(user_id) {
        Ok(bot_user) => Ok(
            AccessPolicy {
                bot_user,
                admin_users: read_users(&security.admin_users),
                allowed_inviters: read_users(&security.allowed_inviters),
            },
        ),
        Err(message) => Err(message),
    }
}

/// What to do about an invitation.
#[derive(Clone, Copy, Debug, PartialEq, Eq, Structural)]
pub enum InviteDecision {
    /// It is not for the bot.
    Ignore,
    /// It is refused: leave the room.
    Refuse,
    /// It is taken: join the room.
    Accept,
}

/// Whether a user may invite the bot.
pub open spec fn may_invite(inviters: Set<Seq<char>>, sender: Seq<char>) -> bool {
    inviters == Set::<Seq<char>>::empty() || inviters.contains(sender)
}

/// What to do about an invitation of `invited` by `sender`.
pub open spec fn invite_decision(
    bot_user: Seq<char>,
    inviters: Set<Seq<char>>,
    invited: Seq<char>,
    sender: Seq<char>,
) -> InviteDecision {
    if invited != bot_user {
        InviteDecision::Ignore
    } else if may_invite(inviters, sender) {
        InviteDecision::Accept
    } else {
        InviteDecision::Refuse
    }
}

/// Decides what to do about an invitation of `invited` by `sender`.
pub fn decide_invite(policy: &AccessPolicy, invited: &str, sender: &str) -> (r: InviteDecision)
    ensures
        r == invite_decision(policy.bot_user@, policy.allowed_inviters@, invited@, sender@),
{
    if !same_text(invited, policy.bot_user.as_str()) {
        InviteDecision::Ignore
    } else if !policy.allowed_inviters.is_empty() && !policy.allowed_inviters.contains(sender) {
        InviteDecision::Refuse
    } else {
        InviteDecision::Accept
    }
}

/// Where nobody is named everybody may invite the bot, and otherwise those who are named and no
/// others; an invitation of somebody else is never acted on.
pub proof fn law_only_allowed_users_invite(
    bot_user: Seq<char>,
    inviters: Set<Seq<char>>,
    invited: Seq<char>,
    sender: Seq<char>,
)
    ensures
        invite_decision(bot_user, inviters, invited, sender) == InviteDecision::Accept <==> invited == bot_user && (
        inviters.contains(sender) || forall|user: Seq<char>| !inviters.contains(user)),
        invited != bot_user ==> invite_decision(bot_user, inviters, invited, sender) == InviteDecision::Ignore,
{
    if forall|user: Seq<char>| !inviters.contains(user) {
        assert(inviters =~= Set::<Seq<char>>::empty());
    }
}

/// A message in a room.
#[derive(Debug)]
pub enum MessageKind {
    /// It asks the bot to verify a device.
    VerificationRequest,
    /// It is text.
    Text(String),
    /// It is anything else.
    Other,
}

/// What a message leads to.
#[derive(Debug)]
pub enum MessageOutcome {
    /// Nothing.
    Ignored,
    /// A device verification.
    StartVerification,
    /// This user may be verified again.
    ResetAllowed(String),
    /// A reset was asked for by somebody who may not ask for it.
    NotAdmin,
    /// A reset was asked for, but not of a user.
    InvalidTarget(String),
}

/// What a message leads to, by its texts.
pub enum MessageOutcomeView {
    Ignored,
    StartVerification,
    ResetAllowed(Seq<char>),
    NotAdmin,
    InvalidTarget(Seq<char>),
}

impl View for MessageOutcome {
    type V = MessageOutcomeView;

    open spec fn view(&self) -> MessageOutcomeView {
        match self {
            MessageOutcome::Ignored => MessageOutcomeView::Ignored,
            MessageOutcome::StartVerification => MessageOutcomeView::StartVerification,
            MessageOutcome::ResetAllowed(user) => MessageOutcomeView::ResetAllowed(user@),
            MessageOutcome::NotAdmin => MessageOutcomeView::NotAdmin,
            MessageOutcome::InvalidTarget(text) => MessageOutcomeView::InvalidTarget(text@),
        }
    }
}

/// The command that resets the trust in a user, with the blank behind it.
pub const RESET_COMMAND: &'static str = "!reset-trust ";

/// Whom a text asks to reset the trust in, where it is that command: what follows the command,
/// without white space around it.
pub open spec fn reset_target(body: Seq<char>) -> Option<Seq<char>> {
    let text = trimmed(body);
    if RESET_COMMAND@.is_prefix_of(text) {
        Some(trimmed(text.skip(RESET_COMMAND@.len() as int)))
    } else {
        None
    }
}

/// The command with a target behind it names that target, whatever white space there is around the
/// command and before the target.
pub proof fn law_the_command_names_its_target(
    before: Seq<char>,
    blanks: Seq<char>,
    target: Seq<char>,
    after: Seq<char>,
)
    requires
        all_white(before),
        all_white(blanks),
        all_white(after),
        target.len() > 0,
        !is_white(target[0]),
        !is_white(target.last()),
    ensures
        reset_target(before + (RESET_COMMAND@ + blanks + target) + after) == Some(target),
{
    reveal_strlit("!reset-trust ");
    let text = RESET_COMMAND@ + blanks + target;
    assert(text[0] == '!');
    assert(text.last() == target.last());
    law_trimming_takes_the_white_space_off(before, text, after);
    assert(RESET_COMMAND@.is_prefix_of(text));
    let none = Seq::<char>::empty();
    assert(text.skip(RESET_COMMAND@.len() as int) =~= blanks + target + none);
    law_trimming_takes_the_white_space_off(blanks, target, none);
}

/// What a text that an admin, or somebody else, sent leads to, given the target of the command in
/// it and the user that the target names.
pub open spec fn reset_outcome(
    is_admin: bool,
    target: Option<Seq<char>>,
    user: Result<Seq<char>, Seq<char>>,
) -> MessageOutcomeView {
    match target {
        None => MessageOutcomeView::Ignored,
        Some(target) => if !is_admin {
            MessageOutcomeView::NotAdmin
        } else {
            match user {
                Ok(user) => MessageOutcomeView::ResetAllowed(user),
                Err(_) => MessageOutcomeView::InvalidTarget(target),
            }
        },
    }
}

/// What a message leads to. `in_room` tells whether the bot is in the room.
pub open spec fn message_outcome(
    bot_user: Seq<char>,
    admins: Set<Seq<char>>,
    kind: MessageKind,
    sender: Seq<char>,
    in_room: bool,
) -> MessageOutcomeView {
    match kind {
        MessageKind::VerificationRequest => MessageOutcomeView::StartVerification,
        MessageKind::Other => MessageOutcomeView::Ignored,
        MessageKind::Text(body) => if sender == bot_user || !in_room {
            MessageOutcomeView::Ignored
        } else {
            let target = reset_target(body@);
            reset_outcome(admins.contains(sender), target, parsed_user_id(target->0))
        },
    }
}

/// The users who may be verified again after a message.
pub open spec fn resets_after(resets: Set<Seq<char>>, outcome: MessageOutcomeView) -> Set<Seq<char>> {
    match outcome {
        MessageOutcomeView::ResetAllowed(user) => resets.insert(user),
        _ => resets,
    }
}

/// Whom a text asks to reset the trust in, where it is that command.
pub fn read_reset_command(body: &str) -> (r: Option<String>)
    ensures
        r is Some <==> reset_target(body@) is Some,
        r matches Some(target) ==> reset_target(body@) == Some(target@),
{
    let text = trim(body);
    match after_prefix(text.as_str(), RESET_COMMAND) {
        Some(rest) => {
            assert(rest@ =~= text@.skip(RESET_COMMAND@.len() as int));
            Some(trim(rest.as_str()))
        },
        None => None,
    }
}

/// Decides what a reset leads to, given the user that its target names.
pub fn decide_reset(is_admin: bool, target: Option<String>, user: Result<String, String>) -> (r: MessageOutcome)
    ensures
        r@ == reset_outcome(
            is_admin,
            optional_text(target),
            parse_view(user),
        ),
{
    match target {
        None => MessageOutcome::Ignored,
        Some(target) => if !is_admin {
            MessageOutcome::NotAdmin
        } else {
            match user {
                Ok(user) => MessageOutcome::ResetAllowed(user),
                Err(_) => MessageOutcome::InvalidTarget(target),
            }
        },
    }
}

/// Decides what a message leads to, and notes the user who may be verified again.
pub fn handle_message(
    policy: &AccessPolicy,
    resets: &mut TextSet,
    kind: MessageKind,
    sender: &str,
    in_room: bool,
) -> (r: MessageOutcome)
    ensures
        r@ == message_outcome(policy.bot_user@, policy.admin_users@, kind, sender@, in_room),
        final(resets)@ == resets_after(old(resets)@, r@),
{
    match kind {
        MessageKind::VerificationRequest => MessageOutcome::StartVerification,
        MessageKind::Other => MessageOutcome::Ignored,
        MessageKind::Text(body) => {
            if same_text(sender, policy.bot_user.as_str()) || !in_room {
                return MessageOutcome::Ignored;
            }
            match read_reset_command(body.as_str()) {
                None => MessageOutcome::Ignored,
                Some(target) => {
                    let user = parse_user_id(target.as_str());
                    let outcome = decide_reset(policy.admin_users.contains(sender), Some(target), user);
                    match &outcome {
                        MessageOutcome::ResetAllowed(user) => {
                            resets.insert(user.clone());
                        },
                        _ => {},
                    }
                    outcome
                },
            }
        },
    }
}

/// A user may be verified again because of a message only if an admin, who is not the bot, sent the
/// command with that user's id as text in a room that the bot is in.
pub proof fn law_only_admins_reset_trust(
    bot_user: Seq<char>,
    admins: Set<Seq<char>>,
    resets: Set<Seq<char>>,
    kind: MessageKind,
    sender: Seq<char>,
    in_room: bool,
    user: Seq<char>,
)
    requires
        !resets.contains(user),
        resets_after(resets, message_outcome(bot_user, admins, kind, sender, in_room)).contains(user),
    ensures
        admins.contains(sender),
        sender != bot_user,
        in_room,
        kind matches MessageKind::Text(body) && reset_target(body@) is Some && parsed_user_id(
            reset_target(body@)->0,
        ) == Ok::<Seq<char>, Seq<char>>(user),
{
}

/// Whether a user has a verified device, given which of the user's devices are verified, where
/// these could be looked up.
pub open spec fn has_verified_device(devices: Option<Vec<bool>>) -> bool {
    match devices {
        Some(verified) => verified@.contains(true),
        None => false,
    }
}

/// Whether a user has a verified device.
pub fn already_verified(devices: &Option<Vec<bool>>) -> (r: bool)
    ensures
        r == has_verified_device(*devices),
{
    match devices {
        None => false,
        Some(verified) => {
            let mut i: usize = 0;
            while i < verified.len()
                invariant
                    i <= verified@.len(),
                    devices == Some(*verified),
                    forall|j: int| 0 <= j < i ==> !verified@[j],
                decreases verified@.len() - i,
            {
                if verified[i] {
                    assert(verified@.contains(true));
                    return true;
                }
                i += 1;
            }
            false
        },
    }
}

/// What to do about a request to verify a device.
#[derive(Clone, Copy, Debug, PartialEq, Eq, Structural)]
pub enum Admission {
    /// The user has a verified device already: cancel the request.
    Refuse,
    /// Accept the request.
    Accept,
    /// Accept the request; an admin allowed it.
    AcceptReset,
}

/// What to do about a request to verify a device of a user.
pub open spec fn admission(resets: Set<Seq<char>>, user: Seq<char>, verified: bool) -> Admission {
    if !verified {
        Admission::Accept
    } else if resets.contains(user) {
        Admission::AcceptReset
    } else {
        Admission::Refuse
    }
}

/// The users who may be verified again after such a request.
pub open spec fn resets_after_request(resets: Set<Seq<char>>, user: Seq<char>, verified: bool) -> Set<Seq<char>> {
    if verified {
        resets.remove(user)
    } else {
        resets
    }
}

/// Decides what to do about a request to verify a device of a user. A reset is used up by it.
pub fn admit_verification(resets: &mut TextSet, user: &str, verified: bool) -> (r: Admission)
    ensures
        r == admission(old(resets)@, user@, verified),
        final(resets)@ == resets_after_request(old(resets)@, user@, verified),
{
    if !verified {
        return Admission::Accept;
    }
    if resets.remove(user) {
        Admission::AcceptReset
    } else {
        Admission::Refuse
    }
}

/// One reset lets a user with a verified device through once: the next request of that user is
/// refused. A user without one is let through, and uses up no reset.
pub proof fn law_a_reset_is_used_once(resets: Set<Seq<char>>, user: Seq<char>)
    ensures
        admission(resets.insert(user), user, true) == Admission::AcceptReset,
        admission(resets_after_request(resets.insert(user), user, true), user, true) == Admission::Refuse,
        admission(resets, user, false) == Admission::Accept,
        resets_after_request(resets, user, false) == resets,
        forall|other: Seq<char>, verified: bool|
            other != user ==> #[trigger] admission(resets_after_request(resets, user, true), other, verified)
                == admission(resets, other, verified),
{
}

/// What the users who may be verified again depend on.
pub enum TrustEvent {
    /// A message: its kind, its sender, and whether the bot is in the room.
    Message(MessageKind, Seq<char>, bool),
    /// A request to verify a device of this user, who has a verified one or not.
    Request(Seq<char>, bool),
}

/// The users who may be verified again after a series of events, where there were none before.
pub open spec fn resets_after_all(
    bot_user: Seq<char>,
    admins: Set<Seq<char>>,
    events: Seq<TrustEvent>,
) -> Set<Seq<char>>
    decreases events.len(),
{
    if events.len() == 0 {
        Set::empty()
    } else {
        let resets = resets_after_all(bot_user, admins, events.drop_last());
        match events.last() {
            TrustEvent::Message(kind, sender, in_room) => resets_after(
                resets,
                message_outcome(bot_user, admins, kind, sender, in_room),
            ),
            TrustEvent::Request(user, verified) => resets_after_request(resets, user, verified),
        }
    }
}

/// How often, in a series of events, a user was allowed to be verified again.
pub open spec fn resets_granted(
    bot_user: Seq<char>,
    admins: Set<Seq<char>>,
    events: Seq<TrustEvent>,
    user: Seq<char>,
) -> nat {
    events.filter(
        |event: TrustEvent|
            event matches TrustEvent::Message(kind, sender, in_room) && message_outcome(
                bot_user,
                admins,
                kind,
                sender,
                in_room,
            ) == MessageOutcomeView::ResetAllowed(user),
    ).len()
}

/// How often, in a series of events, a user with a verified device was let through.
pub open spec fn resets_used(
    bot_user: Seq<char>,
    admins: Set<Seq<char>>,
    events: Seq<TrustEvent>,
    user: Seq<char>,
) -> nat
    decreases events.len(),
{
    if events.len() == 0 {
        0
    } else {
        let earlier = events.drop_last();
        let used = resets_used(bot_user, admins, earlier, user);
        match events.last() {
            TrustEvent::Request(other, verified) => if other == user && verified && admission(
                resets_after_all(bot_user, admins, earlier),
                other,
                verified,
            ) != Admission::Refuse {
                used + 1
            } else {
                used
            },
            _ => used,
        }
    }
}

/// Whatever happens, a user with a verified device is never let through more often than the trust
/// in that user was reset.
pub proof fn law_no_verification_without_a_reset(
    bot_user: Seq<char>,
    admins: Set<Seq<char>>,
    events: Seq<TrustEvent>,
    user: Seq<char>,
)
    ensures
        resets_used(bot_user, admins, events, user) + if resets_after_all(bot_user, admins, events).contains(user) {
            1int
        } else {
            0
        } <= resets_granted(bot_user, admins, events, user),
    decreases events.len(),
{
    let granted = |event: TrustEvent|
        event matches TrustEvent::Message(kind, sender, in_room) && message_outcome(
            bot_user,
            admins,
            kind,
            sender,
            in_room,
        ) == MessageOutcomeView::ResetAllowed(user);
    if events.len() > 0 {
        let earlier = events.drop_last();
        law_no_verification_without_a_reset(bot_user, admins, earlier, user);
        assert(events =~= earlier.push(events.last()));
        earlier.lemma_filter_push(events.last(), granted);
    }
}

/// How far a request to verify a device has come.
#[derive(Clone, Copy, Debug, PartialEq, Eq, Structural)]
pub enum RequestPhase {
    /// The bot is accepting it.
    Accepting,
    /// It was accepted; the bot follows its changes.
    Following,
    /// The bot has left it alone.
    Over,
}

/// What happens to a request to verify a device.
#[derive(Clone, Copy, Debug, PartialEq, Eq, Structural)]
pub enum RequestEvent {
    /// It was accepted, or could not be.
    Accepted(bool),
    /// It turned into a comparison of short strings.
    ShortStrings,
    /// It turned into another way of verification.
    OtherMethod,
    /// It is done.
    Done,
    /// It was cancelled.
    Cancelled,
    /// Any other change.
    Other,
    /// There are no more changes.
    Ended,
}

/// What the bot does about it.
#[derive(Clone, Copy, Debug, PartialEq, Eq, Structural)]
pub enum RequestAction {
    /// Accept the request.
    Accept,
    /// Cancel the request, and leave it alone.
    Cancel,
    /// Wait for the next change.
    Wait,
    /// Compare short strings, and leave the request alone.
    Compare,
    /// Leave the request alone.
    Stop,
}

/// What the bot does first about a request, and how far the request has come then.
pub open spec fn first_request_step(admission: Admission) -> (RequestPhase, RequestAction) {
    match admission {
        Admission::Refuse => (RequestPhase::Over, RequestAction::Cancel),
        Admission::Accept => (RequestPhase::Accepting, RequestAction::Accept),
        Admission::AcceptReset => (RequestPhase::Accepting, RequestAction::Accept),
    }
}

/// What the bot does when something happens to a request, and how far the request has come then.
pub open spec fn request_step(phase: RequestPhase, event: RequestEvent) -> (RequestPhase, RequestAction) {
    match (phase, event) {
        (RequestPhase::Accepting, RequestEvent::Accepted(true)) => (RequestPhase::Following, RequestAction::Wait),
        (RequestPhase::Accepting, RequestEvent::Accepted(false)) => (RequestPhase::Over, RequestAction::Stop),
        (RequestPhase::Following, RequestEvent::ShortStrings) => (RequestPhase::Over, RequestAction::Compare),
        (RequestPhase::Following, RequestEvent::Done) => (RequestPhase::Over, RequestAction::Stop),
        (RequestPhase::Following, RequestEvent::Cancelled) => (RequestPhase::Over, RequestAction::Stop),
        (RequestPhase::Following, RequestEvent::Ended) => (RequestPhase::Over, RequestAction::Stop),
        (RequestPhase::Over, _) => (RequestPhase::Over, RequestAction::Stop),
        (phase, _) => (phase, RequestAction::Wait),
    }
}

/// Decides what the bot does first about a request.
pub fn start_request(admission: Admission) -> (r: (RequestPhase, RequestAction))
    ensures
        r == first_request_step(admission),
{
    match admission {
        Admission::Refuse => (RequestPhase::Over, RequestAction::Cancel),
        Admission::Accept | Admission::AcceptReset => (RequestPhase::Accepting, RequestAction::Accept),
    }
}

/// Decides what the bot does when something happens to a request.
pub fn on_request_event(phase: RequestPhase, event: RequestEvent) -> (r: (RequestPhase, RequestAction))
    ensures
        r == request_step(phase, event),
{
    match phase {
        RequestPhase::Accepting => match event {
            RequestEvent::Accepted(accepted) => if accepted {
                (RequestPhase::Following, RequestAction::Wait)
            } else {
                (RequestPhase::Over, RequestAction::Stop)
            },
            _ => (RequestPhase::Accepting, RequestAction::Wait),
        },
        RequestPhase::Following => match event {
            RequestEvent::ShortStrings => (RequestPhase::Over, RequestAction::Compare),
            RequestEvent::Done | RequestEvent::Cancelled | RequestEvent::Ended => (
                RequestPhase::Over,
                RequestAction::Stop,
            ),
            _ => (RequestPhase::Following, RequestAction::Wait),
        },
        RequestPhase::Over => (RequestPhase::Over, RequestAction::Stop),
    }
}

/// How far a request has come after a series of events.
pub open spec fn request_phase(admission: Admission, events: Seq<RequestEvent>) -> RequestPhase
    decreases events.len(),
{
    if events.len() == 0 {
        first_request_step(admission).0
    } else {
        request_step(request_phase(admission, events.drop_last()), events.last()).0
    }
}

/// What the bot does about the last of a series of events; about the request itself where there are
/// none.
pub open spec fn request_action(admission: Admission, events: Seq<RequestEvent>) -> RequestAction {
    if events.len() == 0 {
        first_request_step(admission).1
    } else {
        request_step(request_phase(admission, events.drop_last()), events.last()).1
    }
}

/// A request is followed only after it was accepted, and it is over once the bot has turned to the
/// strings.
proof fn lemma_request_phase(admission: Admission, events: Seq<RequestEvent>)
    ensures
        admission == Admission::Refuse ==> request_phase(admission, events) == RequestPhase::Over,
        request_phase(admission, events) == RequestPhase::Following ==> events.contains(RequestEvent::Accepted(true)),
        request_phase(admission, events) != RequestPhase::Over ==> forall|n: int|
            0 <= n <= events.len() ==> request_action(admission, #[trigger] events.take(n)) != RequestAction::Compare,
    decreases events.len(),
{
    if events.len() == 0 {
        assert forall|n: int| 0 <= n <= events.len() implies request_action(admission, #[trigger] events.take(n))
            != RequestAction::Compare by {}
    } else {
        let earlier = events.drop_last();
        lemma_request_phase(admission, earlier);
        if earlier.contains(RequestEvent::Accepted(true)) {
            let at = choose|i: int| 0 <= i < earlier.len() && earlier[i] == RequestEvent::Accepted(true);
            assert(events[at] == RequestEvent::Accepted(true));
        }
        assert(events[events.len() - 1] == events.last());
        assert forall|n: int|
            request_phase(admission, events) != RequestPhase::Over && 0 <= n <= events.len() implies request_action(
            admission,
            #[trigger] events.take(n),
        ) != RequestAction::Compare by {
            if n < events.len() {
                assert(events.take(n) =~= earlier.take(n));
            } else {
                assert(events.take(n) =~= events);
            }
        }
    }
}

/// Whatever happens to a request, the bot accepts it at once and only then, unless it is refused:
/// then the bot cancels it at once, and only then. The strings are compared only after the request
/// was accepted, when it turns into their comparison, and once.
pub proof fn law_a_request_is_accepted_before_strings_are_compared(admission: Admission, events: Seq<RequestEvent>)
    ensures
        request_action(admission, events) == RequestAction::Accept <==> events.len() == 0 && admission
            != Admission::Refuse,
        request_action(admission, events) == RequestAction::Cancel <==> events.len() == 0 && admission
            == Admission::Refuse,
        request_action(admission, events) == RequestAction::Compare ==> {
            &&& admission != Admission::Refuse
            &&& events.last() == RequestEvent::ShortStrings
            &&& events.drop_last().contains(RequestEvent::Accepted(true))
            &&& forall|n: int|
                0 <= n < events.len() ==> request_action(admission, #[trigger] events.take(n)) != RequestAction::Compare
        },
{
    if events.len() > 0 {
        let earlier = events.drop_last();
        lemma_request_phase(admission, earlier);
        assert forall|n: int|
            request_action(admission, events) == RequestAction::Compare && 0 <= n < events.len() implies request_action(
            admission,
            #[trigger] events.take(n),
        ) != RequestAction::Compare by {
            assert(events.take(n) =~= earlier.take(n));
        }
    }
}

/// How far a comparison of short strings has come.
#[derive(Clone, Copy, Debug, PartialEq, Eq, Structural)]
pub enum SasPhase {
    /// The bot is accepting it.
    Accepting,
    /// It was accepted; the bot follows its changes.
    Following,
    /// The bot is confirming that the strings are the same.
    Confirming,
    /// The bot has left it alone.
    Over,
}

/// What happens to a comparison of short strings.
#[derive(Clone, Copy, Debug, PartialEq, Eq, Structural)]
pub enum SasEvent {
    /// It was accepted, or could not be.
    Accepted(bool),
    /// The keys were exchanged: the strings can be compared.
    KeysExchanged,
    /// It was confirmed, or could not be.
    Confirmed(bool),
    /// It is done.
    Done,
    /// It was cancelled.
    Cancelled,
    /// Any other change.
    Other,
    /// There are no more changes.
    Ended,
}

/// What the bot does about it. It neither cancels a comparison nor says that the strings differ.
#[derive(Clone, Copy, Debug, PartialEq, Eq, Structural)]
pub enum SasAction {
    /// Accept the comparison.
    Accept,
    /// Wait for the next change.
    Wait,
    /// Confirm that the strings are the same.
    Confirm,
    /// Leave the comparison alone.
    Stop,
}

/// What the bot does first about a comparison, and how far the comparison has come then.
pub open spec fn first_sas_step() -> (SasPhase, SasAction) {
    (SasPhase::Accepting, SasAction::Accept)
}

/// What the bot does when something happens to a comparison, and how far the comparison has come
/// then. It confirms the strings without looking at them.
pub open spec fn sas_step(phase: SasPhase, event: SasEvent) -> (SasPhase, SasAction) {
    match (phase, event) {
        (SasPhase::Accepting, SasEvent::Accepted(true)) => (SasPhase::Following, SasAction::Wait),
        (SasPhase::Accepting, SasEvent::Accepted(false)) => (SasPhase::Over, SasAction::Stop),
        (SasPhase::Following, SasEvent::KeysExchanged) => (SasPhase::Confirming, SasAction::Confirm),
        (SasPhase::Following, SasEvent::Done) => (SasPhase::Over, SasAction::Stop),
        (SasPhase::Following, SasEvent::Cancelled) => (SasPhase::Over, SasAction::Stop),
        (SasPhase::Following, SasEvent::Ended) => (SasPhase::Over, SasAction::Stop),
        (SasPhase::Confirming, SasEvent::Confirmed(true)) => (SasPhase::Following, SasAction::Wait),
        (SasPhase::Confirming, SasEvent::Confirmed(false)) => (SasPhase::Over, SasAction::Stop),
        (SasPhase::Over, _) => (SasPhase::Over, SasAction::Stop),
        (phase, _) => (phase, SasAction::Wait),
    }
}

/// Decides what the bot does first about a comparison.
pub fn start_sas() -> (r: (SasPhase, SasAction))
    ensures
        r == first_sas_step(),
{
    (SasPhase::Accepting, SasAction::Accept)
}

/// Decides what the bot does when something happens to a comparison.
pub fn on_sas_event(phase: SasPhase, event: SasEvent) -> (r: (SasPhase, SasAction))
    ensures
        r == sas_step(phase, event),
{
    match phase {
        SasPhase::Accepting => match event {
            SasEvent::Accepted(accepted) => if accepted {
                (SasPhase::Following, SasAction::Wait)
            } else {
                (SasPhase::Over, SasAction::Stop)
            },
            _ => (SasPhase::Accepting, SasAction::Wait),
        },
        SasPhase::Following => match event {
            SasEvent::KeysExchanged => (SasPhase::Confirming, SasAction::Confirm),
            SasEvent::Done | SasEvent::Cancelled | SasEvent::Ended => (SasPhase::Over, SasAction::Stop),
            _ => (SasPhase::Following, SasAction::Wait),
        },
        SasPhase::Confirming => match event {
            SasEvent::Confirmed(confirmed) => if confirmed {
                (SasPhase::Following, SasAction::Wait)
            } else {
                (SasPhase::Over, SasAction::Stop)
            },
            _ => (SasPhase::Confirming, SasAction::Wait),
        },
        SasPhase::Over => (SasPhase::Over, SasAction::Stop),
    }
}

/// How far a comparison has come after a series of events.
pub open spec fn sas_phase(events: Seq<SasEvent>) -> SasPhase
    decreases events.len(),
{
    if events.len() == 0 {
        first_sas_step().0
    } else {
        sas_step(sas_phase(events.drop_last()), events.last()).0
    }
}

/// What the bot does about the last of a series of events; about the comparison itself where there
/// are none.
pub open spec fn sas_action(events: Seq<SasEvent>) -> SasAction {
    if events.len() == 0 {
        first_sas_step().1
    } else {
        sas_step(sas_phase(events.drop_last()), events.last()).1
    }
}

/// A comparison is followed, and confirmed, only after it was accepted.
proof fn lemma_sas_phase(events: Seq<SasEvent>)
    ensures
        sas_phase(events) == SasPhase::Following || sas_phase(events) == SasPhase::Confirming ==> events.contains(
            SasEvent::Accepted(true),
        ),
    decreases events.len(),
{
    if events.len() > 0 {
        let earlier = events.drop_last();
        lemma_sas_phase(earlier);
        if earlier.contains(SasEvent::Accepted(true)) {
            let at = choose|i: int| 0 <= i < earlier.len() && earlier[i] == SasEvent::Accepted(true);
            assert(events[at] == SasEvent::Accepted(true));
        }
        assert(events[events.len() - 1] == events.last());
    }
}

/// Whatever happens to a comparison, the bot accepts it once, before it does anything else. It
/// confirms the strings only when the keys have just been exchanged, and only after the comparison
/// was accepted; and once it has stopped it does nothing more.
pub proof fn law_a_comparison_is_accepted_before_it_is_confirmed(events: Seq<SasEvent>)
    ensures
        sas_action(events) == SasAction::Accept <==> events.len() == 0,
        sas_action(events) == SasAction::Confirm ==> {
            &&& events.last() == SasEvent::KeysExchanged
            &&& events.drop_last().contains(SasEvent::Accepted(true))
        },
        sas_action(events) == SasAction::Stop ==> forall|event: SasEvent|
            sas_action(#[trigger] events.push(event)) == SasAction::Stop,
{
    if events.len() > 0 {
        lemma_sas_phase(events.drop_last());
    }
    assert forall|event: SasEvent| sas_action(events) == SasAction::Stop implies sas_action(
        #[trigger] events.push(event),
    ) == SasAction::Stop by {
        assert(events.push(event).drop_last() =~= events);
    }
}

/// A user is among the results of reading texts exactly when one of them is that user.
pub proof fn law_users_are_those_that_were_read(parsed: Seq<Result<Seq<char>, Seq<char>>>, user: Seq<char>)
    ensures
        users_among(parsed).contains(user) <==> exists|i: int|
            0 <= i < parsed.len() && #[trigger] parsed[i] == Ok::<Seq<char>, Seq<char>>(user),
{
}

/// A list of texts names a user exactly when one of them reads as that user, whichever place it has.
pub proof fn law_a_list_names_the_users_in_it(texts: Seq<String>, user: Seq<char>)
    ensures
        named_users(texts).contains(user) <==> exists|i: int|
            0 <= i < texts.len() && #[trigger] parsed_user_id(texts[i]@) == Ok::<Seq<char>, Seq<char>>(user),
{
    let parsed = texts.map_values(|text: String| parsed_user_id(text@));
    let wanted = Ok::<Seq<char>, Seq<char>>(user);
    if parsed.contains(wanted) {
        let at = choose|i: int| 0 <= i < parsed.len() && parsed[i] == wanted;
        assert(parsed_user_id(texts[at]@) == wanted);
    }
    if exists|i: int| 0 <= i < texts.len() && #[trigger] parsed_user_id(texts[i]@) == wanted {
        let at = choose|i: int| 0 <= i < texts.len() && #[trigger] parsed_user_id(texts[i]@) == wanted;
        assert(parsed[at] == wanted);
    }
}

/// Results of reading texts are seen as they are, one for one.
pub proof fn law_results_are_seen_as_they_are(parsed: Seq<Result<String, String>>)
    ensures
        parse_views(parsed).len() == parsed.len(),
        forall|i: int|
            0 <= i < parsed.len() ==> {
                &&& parsed[i] matches Ok(user) ==> #[trigger] parse_views(parsed)[i] == Ok::<Seq<char>, Seq<char>>(
                    user@,
                )
                &&& parsed[i] matches Err(message) ==> parse_views(parsed)[i] == Err::<Seq<char>, Seq<char>>(message@)
            },
{
}

/// An invitation of the bot by somebody who may not invite it is refused, and by nobody else.
pub proof fn law_others_are_refused(
    bot_user: Seq<char>,
    inviters: Set<Seq<char>>,
    invited: Seq<char>,
    sender: Seq<char>,
)
    ensures
        invite_decision(bot_user, inviters, invited, sender) == InviteDecision::Refuse <==> invited == bot_user
            && !inviters.contains(sender) && exists|user: Seq<char>| inviters.contains(user),
{
    if forall|user: Seq<char>| !inviters.contains(user) {
        assert(inviters =~= Set::<Seq<char>>::empty());
    }
}

/// A text is the command exactly when it starts with the command's word and a blank, once white space
/// around it is taken off; the target is what follows, without white space around it.
pub proof fn law_the_command_is_known_by_its_start(body: Seq<char>)
    ensures
        reset_target(body) is Some <==> "!reset-trust "@.is_prefix_of(trimmed(body)),
        reset_target(body) matches Some(target) ==> target == trimmed(trimmed(body).skip(13)),
{
    reveal_strlit("!reset-trust ");
}

/// What each message leads to: a request to verify a device is taken up from anyone and anywhere; a
/// text counts only in a room that the bot is in, and not from the bot. The command is refused to all
/// but admins, and an admin's names a user who may then be verified again, or does not.
pub proof fn law_each_message_leads_where_it_should(
    bot_user: Seq<char>,
    admins: Set<Seq<char>>,
    kind: MessageKind,
    sender: Seq<char>,
    in_room: bool,
)
    ensures
        ({
            let outcome = message_outcome(bot_user, admins, kind, sender, in_room);
            &&& kind is VerificationRequest <==> outcome == MessageOutcomeView::StartVerification
            &&& kind is Other ==> outcome == MessageOutcomeView::Ignored
            &&& kind matches MessageKind::Text(body) ==> {
                let target = reset_target(body@);
                let heard = sender != bot_user && in_room;
                &&& !heard || target is None ==> outcome == MessageOutcomeView::Ignored
                &&& heard && target is Some && !admins.contains(sender) ==> outcome == MessageOutcomeView::NotAdmin
                &&& heard && target is Some && admins.contains(sender) ==> {
                    &&& parsed_user_id(target->0) matches Ok(user) ==> outcome == MessageOutcomeView::ResetAllowed(user)
                    &&& parsed_user_id(target->0) is Err ==> outcome == MessageOutcomeView::InvalidTarget(target->0)
                }
            }
        }),
{
}

/// What the command leads to, given the user that its target names: it is refused to all but admins,
/// and names a user, or none.
pub proof fn law_the_command_is_for_admins(
    is_admin: bool,
    target: Seq<char>,
    user: Seq<char>,
    message: Seq<char>,
    read: Result<Seq<char>, Seq<char>>,
)
    ensures
        reset_outcome(is_admin, None, read) == MessageOutcomeView::Ignored,
        reset_outcome(false, Some(target), read) == MessageOutcomeView::NotAdmin,
        reset_outcome(true, Some(target), Ok(user)) == MessageOutcomeView::ResetAllowed(user),
        reset_outcome(true, Some(target), Err(message)) == MessageOutcomeView::InvalidTarget(target),
{
}

/// A message lets one user be verified again, the one that it names, where it names one; nobody else's
/// standing changes.
pub proof fn law_a_message_resets_the_user_that_it_names(
    resets: Set<Seq<char>>,
    outcome: MessageOutcomeView,
    user: Seq<char>,
)
    ensures
        resets_after(resets, outcome).contains(user) <==> resets.contains(user) || outcome
            == MessageOutcomeView::ResetAllowed(user),
{
}

/// A user counts as verified exactly when some device of the user's is verified, whichever place it has
/// in the list; a list that could not be looked up has none.
pub proof fn law_one_verified_device_is_enough(devices: Vec<bool>)
    ensures
        has_verified_device(Some(devices)) <==> exists|i: int| 0 <= i < devices@.len() && #[trigger] devices@[i],
        !has_verified_device(None),
{
    if exists|i: int| 0 <= i < devices@.len() && #[trigger] devices@[i] {
        let at = choose|i: int| 0 <= i < devices@.len() && #[trigger] devices@[i];
        assert(devices@[at] == true);
        assert(devices@.contains(true));
    }
    if has_verified_device(Some(devices)) {
        let at = choose|i: int| 0 <= i < devices@.len() && devices@[i] == true;
        assert(devices@[at]);
    }
}

/// A user without a verified device is let through. One with a verified device is let through exactly
/// where the trust was reset, and the reset is used up; nobody else's standing changes.
pub proof fn law_who_is_let_through(resets: Set<Seq<char>>, user: Seq<char>, verified: bool, other: Seq<char>)
    ensures
        admission(resets, user, verified) == Admission::Accept <==> !verified,
        admission(resets, user, verified) == Admission::AcceptReset <==> verified && resets.contains(user),
        admission(resets, user, verified) == Admission::Refuse <==> verified && !resets.contains(user),
        resets_after_request(resets, user, verified).contains(other) <==> resets.contains(other) && !(verified && other
            == user),
{
}

/// A request that was accepted is followed through every change that is neither its end nor the turn to
/// the strings; at that turn they are compared, and at its end the bot stops. The bot also stops where
/// the request could not be accepted.
pub proof fn law_an_accepted_request_is_followed(admission: Admission, quiet: Seq<RequestEvent>)
    requires
        admission != Admission::Refuse,
        forall|i: int|
            0 <= i < quiet.len() ==> (#[trigger] quiet[i]) is Other || quiet[i] is OtherMethod,
    ensures
        ({
            let events = seq![RequestEvent::Accepted(true)] + quiet;
            &&& request_action(admission, events) == RequestAction::Wait
            &&& request_action(admission, events.push(RequestEvent::ShortStrings)) == RequestAction::Compare
            &&& request_action(admission, events.push(RequestEvent::Done)) == RequestAction::Stop
            &&& request_action(admission, events.push(RequestEvent::Cancelled)) == RequestAction::Stop
            &&& request_action(admission, events.push(RequestEvent::Ended)) == RequestAction::Stop
            &&& request_action(admission, seq![RequestEvent::Accepted(false)]) == RequestAction::Stop
        }),
{
    let events = seq![RequestEvent::Accepted(true)] + quiet;
    lemma_followed_request(admission, quiet);
    assert(events.push(RequestEvent::ShortStrings).drop_last() =~= events);
    assert(events.push(RequestEvent::Done).drop_last() =~= events);
    assert(events.push(RequestEvent::Cancelled).drop_last() =~= events);
    assert(events.push(RequestEvent::Ended).drop_last() =~= events);
    assert(seq![RequestEvent::Accepted(false)].drop_last() =~= Seq::<RequestEvent>::empty());
}

/// An accepted request is still followed after changes that are no end.
proof fn lemma_followed_request(admission: Admission, quiet: Seq<RequestEvent>)
    requires
        admission != Admission::Refuse,
        forall|i: int|
            0 <= i < quiet.len() ==> (#[trigger] quiet[i]) is Other || quiet[i] is OtherMethod,
    ensures
        request_phase(admission, seq![RequestEvent::Accepted(true)] + quiet) == RequestPhase::Following,
        request_action(admission, seq![RequestEvent::Accepted(true)] + quiet) == RequestAction::Wait,
    decreases quiet.len(),
{
    let events = seq![RequestEvent::Accepted(true)] + quiet;
    if quiet.len() == 0 {
        reveal_with_fuel(request_phase, 2);
        assert(events.drop_last() =~= Seq::<RequestEvent>::empty());
    } else {
        let shorter = quiet.drop_last();
        assert forall|i: int| 0 <= i < shorter.len() implies (#[trigger] shorter[i]) is Other
            || shorter[i] is OtherMethod by {
            assert(quiet[i] is Other || quiet[i] is OtherMethod);
        }
        lemma_followed_request(admission, shorter);
        assert(events.drop_last() =~= seq![RequestEvent::Accepted(true)] + shorter);
        assert(events.last() == quiet[quiet.len() - 1]);
    }
}

/// A comparison that was accepted is followed through every change that is neither its end nor the
/// exchange of keys. When keys are exchanged the strings are confirmed; a confirmation that went through
/// leaves the comparison as it was, and one that did not ends it. The bot also stops at the end of the
/// comparison, and where it could not be accepted.
pub proof fn law_an_accepted_comparison_is_followed(events: Seq<SasEvent>)
    requires
        sas_phase(events) == sas_phase(seq![SasEvent::Accepted(true)]),
    ensures
        sas_action(seq![SasEvent::Accepted(true)]) == SasAction::Wait,
        sas_action(seq![SasEvent::Accepted(false)]) == SasAction::Stop,
        sas_action(events.push(SasEvent::Other)) == SasAction::Wait,
        sas_phase(events.push(SasEvent::Other)) == sas_phase(events),
        sas_action(events.push(SasEvent::KeysExchanged)) == SasAction::Confirm,
        sas_action(events.push(SasEvent::KeysExchanged).push(SasEvent::Confirmed(true))) == SasAction::Wait,
        sas_phase(events.push(SasEvent::KeysExchanged).push(SasEvent::Confirmed(true))) == sas_phase(events),
        sas_action(events.push(SasEvent::KeysExchanged).push(SasEvent::Confirmed(false))) == SasAction::Stop,
        sas_action(events.push(SasEvent::Done)) == SasAction::Stop,
        sas_action(events.push(SasEvent::Cancelled)) == SasAction::Stop,
        sas_action(events.push(SasEvent::Ended)) == SasAction::Stop,
{
    reveal_with_fuel(sas_phase, 3);
    let keys = events.push(SasEvent::KeysExchanged);
    assert(seq![SasEvent::Accepted(true)].drop_last() =~= Seq::<SasEvent>::empty());
    assert(seq![SasEvent::Accepted(false)].drop_last() =~= Seq::<SasEvent>::empty());
    assert(events.push(SasEvent::Other).drop_last() =~= events);
    assert(keys.drop_last() =~= events);
    assert(keys.push(SasEvent::Confirmed(true)).drop_last() =~= keys);
    assert(keys.push(SasEvent::Confirmed(false)).drop_last() =~= keys);
    assert(events.push(SasEvent::Done).drop_last() =~= events);
    assert(events.push(SasEvent::Cancelled).drop_last() =~= events);
    assert(events.push(SasEvent::Ended).drop_last() =~= events);
}

/// What a message leads to is seen as it is, with the text that it holds.
pub proof fn law_an_outcome_is_seen_as_it_is(outcome: MessageOutcome)
    ensures
        outcome is Ignored <==> outcome@ == MessageOutcomeView::Ignored,
        outcome is StartVerification <==> outcome@ == MessageOutcomeView::StartVerification,
        outcome is NotAdmin <==> outcome@ == MessageOutcomeView::NotAdmin,
        outcome matches MessageOutcome::ResetAllowed(user) ==> outcome@ == MessageOutcomeView::ResetAllowed(user@),
        outcome matches MessageOutcome::InvalidTarget(text) ==> outcome@ == MessageOutcomeView::InvalidTarget(text@),
{
}

/// Once the bot has cancelled a request, turned to its strings or stopped, the request is over; the same
/// holds of a comparison at which it has stopped. What is over stays over, and the bot does nothing about
/// it.
pub proof fn law_what_is_over_stays_over(
    admission: Admission,
    requests: Seq<RequestEvent>,
    request: RequestEvent,
    comparisons: Seq<SasEvent>,
    comparison: SasEvent,
)
    ensures
        request_action(admission, requests) is Cancel || request_action(admission, requests) is Compare
            || request_action(admission, requests) is Stop ==> request_action(admission, requests.push(request))
            == RequestAction::Stop,
        sas_action(comparisons) is Stop ==> sas_action(comparisons.push(comparison)) == SasAction::Stop,
{
    assert(requests.push(request).drop_last() =~= requests);
    assert(comparisons.push(comparison).drop_last() =~= comparisons);
}

} // verus!
