//! The texts that the library composes.

use vstd::prelude::*;
use vstd::string::StringExecFns;

verus! {

/// What the model is told of a tool call that the user declined.
pub const DECLINED_RESPONSE: &'static str = "The user has declined to run this tool. \
    DO NOT attempt to call this tool again. \
    If there are no alternative methods to proceed, clearly explain the situation and STOP.";

/// What the model is told of a tool call that was skipped in chat mode.
pub const CHAT_MODE_TOOL_SKIPPED_RESPONSE: &'static str = "Let the user know the tool call was skipped in goose chat mode. \
                                        DO NOT apologize for skipping the tool call. DO NOT say sorry. \
                                        Provide an explanation of what the tool call would do, structured as a \
                                        plan for the user. Again, DO NOT apologize. \
                                        **Example Plan:**\n \
                                        1. **Identify Task Scope** - Determine the purpose and expected outcome.\n \
                                        2. **Outline Steps** - Break down the steps.\n \
                                        If needed, adjust the explanation based on user preferences or questions.";

/// The decimal digit that stands for `d`.
pub open spec fn digit_char(d: nat) -> char
    recommends
        d < 10,
{
    seq!['0', '1', '2', '3', '4', '5', '6', '7', '8', '9'][d as int]
}

/// `n` in decimal notation, without leading zeros.
pub open spec fn decimal_digits(n: nat) -> Seq<char>
    decreases n,
{
    if n < 10 {
        seq![digit_char(n)]
    } else {
        decimal_digits(n / 10).push(digit_char(n % 10))
    }
}

fn digit_text(d: usize) -> (text: &'static str)
    requires
        d < 10,
    ensures
        text@ == seq![digit_char(d as nat)],
{
    proof {
        reveal_strlit("0");
        reveal_strlit("1");
        reveal_strlit("2");
        reveal_strlit("3");
        reveal_strlit("4");
        reveal_strlit("5");
        reveal_strlit("6");
        reveal_strlit("7");
        reveal_strlit("8");
        reveal_strlit("9");
    }
    match d {
        0 => "0",
        1 => "1",
        2 => "2",
        3 => "3",
        4 => "4",
        5 => "5",
        6 => "6",
        7 => "7",
        8 => "8",
        _ => "9",
    }
}

/// Writes `n` in decimal notation.
pub fn decimal(n: usize) -> (text: String)
    ensures
        text@ == decimal_digits(n as nat),
    decreases n,
{
    if n < 10 {
        digit_text(n).to_owned()
    } else {
        let mut text = decimal(n / 10);
        text.append(digit_text(n % 10));
        assert(text@ =~= decimal_digits(n as nat));
        text
    }
}

/// What the model is told of an ordered call beyond the limit of its batch.
pub open spec fn overflow_text(max_calls: nat) -> Seq<char> {
    "This tool call was not executed because the ordered tool batch exceeds its limit of "@
        + decimal_digits(max_calls)
        + " calls. Wait for the admitted calls to finish, then submit this work in a later batch."@
}

/// Composes the text for an ordered call beyond the limit of its batch.
pub fn overflow_message(max_calls: usize) -> (text: String)
    ensures
        text@ == overflow_text(max_calls as nat),
        text@
            == "This tool call was not executed because the ordered tool batch exceeds its limit of "@
            + decimal_digits(max_calls as nat)
            + " calls. Wait for the admitted calls to finish, then submit this work in a later batch."@,
{
    let mut text =
        "This tool call was not executed because the ordered tool batch exceeds its limit of ".to_owned();
    text.append(decimal(max_calls).as_str());
    text.append(
        " calls. Wait for the admitted calls to finish, then submit this work in a later batch.",
    );
    text
}

/// What the model is told names the limit that was exceeded.
pub proof fn law_overflow_text_names_the_limit(max_calls: nat)
    ensures
        overflow_text(max_calls)
            == "This tool call was not executed because the ordered tool batch exceeds its limit of "@
            + decimal_digits(max_calls)
            + " calls. Wait for the admitted calls to finish, then submit this work in a later batch."@,
{
}

/// A number in decimal notation reads as that number, with digits only and
/// without a leading zero.
pub proof fn law_decimal_reads_as_the_number(n: nat)
    ensures
        decimal_digits(n).fold_left(
            0int,
            |value: int, digit: char| value * 10 + (digit as int - '0' as int),
        ) == n,
        decimal_digits(n).len() > 0,
        decimal_digits(n)[0] == '0' ==> n == 0 && decimal_digits(n).len() == 1,
        forall|i: int|
            0 <= i < decimal_digits(n).len() ==> '0' <= #[trigger] decimal_digits(n)[i] <= '9',
    decreases n,
{
    let read = |value: int, digit: char| value * 10 + (digit as int - '0' as int);
    if n < 10 {
        assert(decimal_digits(n).drop_last() =~= Seq::empty());
        reveal_with_fuel(Seq::fold_left, 2);
    } else {
        law_decimal_reads_as_the_number(n / 10);
        let front = decimal_digits(n / 10);
        assert(decimal_digits(n).drop_last() =~= front);
        reveal_with_fuel(Seq::fold_left, 2);
        assert(decimal_digits(n).fold_left(0int, read) == read(
            front.fold_left(0int, read),
            digit_char(n % 10),
        ));
        assert(decimal_digits(n)[0] == front[0]);
    }
}

/// The error of an approval whose confirmation can no longer arrive.
pub open spec fn channel_closed_text(request_id: Seq<char>) -> Seq<char> {
    "Confirmation channel closed for request "@ + request_id
}

/// Composes the error of an approval whose confirmation can no longer arrive.
pub fn channel_closed_message(request_id: &str) -> (text: String)
    ensures
        text@ == channel_closed_text(request_id@),
        text@ == "Confirmation channel closed for request "@ + request_id@,
{
    let mut text = "Confirmation channel closed for request ".to_owned();
    text.append(request_id);
    text
}

/// The key under which a confirmation is awaited. Subagents share the router
/// of their parent, so their keys are prefixed with their own session.
pub open spec fn confirmation_key(
    is_subagent: bool,
    session_id: Seq<char>,
    request_id: Seq<char>,
) -> Seq<char> {
    if is_subagent {
        session_id + ":"@ + request_id
    } else {
        request_id
    }
}

/// Composes the key under which a confirmation is awaited.
pub fn confirmation_id(is_subagent: bool, session_id: &str, request_id: &str) -> (key: String)
    ensures
        key@ == confirmation_key(is_subagent, session_id@, request_id@),
        is_subagent ==> key@ == session_id@ + seq![':'] + request_id@,
        !is_subagent ==> key@ == request_id@,
{
    proof {
        reveal_strlit(":");
        assert(":"@ =~= seq![':']);
    }
    if is_subagent {
        let mut key = session_id.to_owned();
        key.append(":");
        key.append(request_id);
        key
    } else {
        request_id.to_owned()
    }
}

/// A request of a subagent waits under the session of the subagent, a colon and
/// its own identifier; any other request waits under its identifier alone.
pub proof fn law_confirmation_key_names_the_request(session_id: Seq<char>, request_id: Seq<char>)
    ensures
        confirmation_key(true, session_id, request_id) == session_id + seq![':'] + request_id,
        confirmation_key(false, session_id, request_id) == request_id,
{
    reveal_strlit(":");
    assert(":"@ =~= seq![':']);
}

/// Within one session, different requests wait under different keys.
pub proof fn law_confirmation_keys_are_distinct(
    is_subagent: bool,
    session_id: Seq<char>,
    first: Seq<char>,
    second: Seq<char>,
)
    ensures
        confirmation_key(is_subagent, session_id, first) == confirmation_key(
            is_subagent,
            session_id,
            second,
        ) <==> first == second,
{
    if is_subagent && confirmation_key(true, session_id, first) == confirmation_key(
        true,
        session_id,
        second,
    ) {
        let prefix = session_id + ":"@;
        assert(first =~= (prefix + first).skip(prefix.len() as int));
        assert(second =~= (prefix + second).skip(prefix.len() as int));
    }
}

/// Requests that happen to have the same identifier never wait under the same
/// key if they are of different subagent sessions, or if one of them is of a
/// subagent and the other of its parent.
pub proof fn law_same_identifier_waits_under_different_keys(
    session_id: Seq<char>,
    other_session_id: Seq<char>,
    parent_session_id: Seq<char>,
    request_id: Seq<char>,
)
    ensures
        session_id != other_session_id ==> confirmation_key(true, session_id, request_id)
            != confirmation_key(true, other_session_id, request_id),
        confirmation_key(true, session_id, request_id) != confirmation_key(
            false,
            parent_session_id,
            request_id,
        ),
{
    reveal_strlit(":");
    let key = confirmation_key(true, session_id, request_id);
    let other_key = confirmation_key(true, other_session_id, request_id);
    assert(key.len() == session_id.len() + 1 + request_id.len());
    if key == other_key {
        assert(other_key.len() == other_session_id.len() + 1 + request_id.len());
        assert(session_id =~= key.take(session_id.len() as int));
        assert(other_session_id =~= other_key.take(session_id.len() as int));
    }
}

/// Whether a text holds no colon.
pub open spec fn is_colon_free(text: Seq<char>) -> bool {
    forall|i: int| 0 <= i < text.len() ==> #[trigger] text[i] != ':'
}

/// Subagents of different sessions wait under different keys, if the sessions
/// have identifiers without a colon.
pub proof fn law_subagent_sessions_do_not_collide(
    session_id: Seq<char>,
    request_id: Seq<char>,
    other_session_id: Seq<char>,
    other_request_id: Seq<char>,
)
    requires
        is_colon_free(session_id),
        is_colon_free(other_session_id),
        session_id != other_session_id,
    ensures
        confirmation_key(true, session_id, request_id) != confirmation_key(
            true,
            other_session_id,
            other_request_id,
        ),
{
    reveal_strlit(":");
    let first = confirmation_key(true, session_id, request_id);
    let second = confirmation_key(true, other_session_id, other_request_id);
    assert(first[session_id.len() as int] == ':');
    assert(second[other_session_id.len() as int] == ':');
    if first == second {
        if session_id.len() < other_session_id.len() {
            assert(second[session_id.len() as int] == other_session_id[session_id.len() as int]);
        } else if other_session_id.len() < session_id.len() {
            assert(first[other_session_id.len() as int] == session_id[other_session_id.len() as int]);
        } else {
            assert forall|i: int| 0 <= i < session_id.len() implies session_id[i]
                == other_session_id[i] by {
                assert(first[i] == second[i]);
            }
            assert(session_id =~= other_session_id);
        }
    }
}

/// A subagent does not wait under the key of a request of its parent, unless
/// that request has an identifier that starts like the keys of the subagent.
pub proof fn law_subagent_and_parent_do_not_collide(
    session_id: Seq<char>,
    request_id: Seq<char>,
    parent_session_id: Seq<char>,
    parent_request_id: Seq<char>,
)
    requires
        !(session_id + ":"@).is_prefix_of(parent_request_id),
    ensures
        confirmation_key(true, session_id, request_id) != confirmation_key(
            false,
            parent_session_id,
            parent_request_id,
        ),
{
    let key = confirmation_key(true, session_id, request_id);
    assert(key.take((session_id + ":"@).len() as int) =~= session_id + ":"@);
}

} // verus!
