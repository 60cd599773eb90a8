//! What clients and nodes may count on when they talk: addresses, retries, times, and what
//! SQL may do.

use vstd::prelude::*;
use vstd::string::*;

use crate::authorizer;
use crate::authorizer::SqliteAction;
use crate::bytes;
use crate::codec;
use crate::commit::FileKind;
use crate::file_model::FileOp;
use crate::hlc;
use crate::hlc::HybridTimestamp;
use crate::raft_client;
use crate::raft_client::ForwardRetryPolicy;
use crate::raft_client::LeaderHint;
use crate::raft_client::OrionSqliteRaftError;
use crate::text;
use crate::text::Strip;
use crate::transport;
use crate::transport::EndpointRegistry;
use crate::types;
use crate::types::SqliteFileKind;

verus! {

broadcast use group_string_axioms;

/// An address with a scheme is used as it is, and any other is taken to be that of a plain
/// HTTP service; either way what was written stays the end of the address.
pub proof fn law_addresses_have_a_scheme(rest: Seq<char>, endpoint: Seq<char>)
    ensures
        transport::normalized("http://"@ + rest) == "http://"@ + rest,
        transport::normalized("https://"@ + rest) == "https://"@ + rest,
        transport::normalized(endpoint) == endpoint || transport::normalized(endpoint) == "http://"@
            + endpoint,
        vstd::utf8::encode_utf8(endpoint).len() < 7 || vstd::utf8::encode_utf8(endpoint)[0] != 104
            || (vstd::utf8::encode_utf8(endpoint)[4] != 58 && vstd::utf8::encode_utf8(endpoint)[4]
            != 115) ==> transport::normalized(endpoint) == "http://"@ + endpoint,
        endpoint.len() == 0 ==> transport::normalized(endpoint) == "http://"@,
{
    text::lemma_encode_both("http://"@, rest);
    text::lemma_encode_both("https://"@, rest);
    let plain = vstd::utf8::encode_utf8("http://"@ + rest);
    let secure = vstd::utf8::encode_utf8("https://"@ + rest);
    assert(plain.subrange(0, bytes::text("http://").len() as int) =~= bytes::text("http://"));
    assert(secure.subrange(0, bytes::text("https://").len() as int) =~= bytes::text("https://"));
    reveal_strlit("http://");
    reveal_strlit("https://");
    assert(is_ascii("http://"));
    assert(is_ascii("https://"));
    let written = vstd::utf8::encode_utf8(endpoint);
    if transport::has_scheme(written) {
        if bytes::has_prefix(written, bytes::text("http://")) {
            assert(written.subrange(0, 7)[0] == bytes::text("http://")[0]);
            assert(written.subrange(0, 7)[4] == bytes::text("http://")[4]);
        } else {
            assert(written.subrange(0, 8)[0] == bytes::text("https://")[0]);
            assert(written.subrange(0, 8)[4] == bytes::text("https://")[4]);
        }
    }
    if endpoint.len() == 0 {
        assert("http://"@ + endpoint =~= "http://"@);
    }
}

/// A node is reached at the address that the request names, and where it names none at the
/// one that was registered for the node; a node without either is not reached.
pub proof fn law_named_address_comes_first(
    registry: EndpointRegistry,
    target: u64,
    named: Seq<char>,
)
    ensures
        named.len() > 0 ==> registry.address_of(target, named) == Some(
            transport::normalized(named),
        ),
        named.len() == 0 && registry.addresses().dom().contains(target) ==> registry.address_of(
            target,
            named,
        ) == Some(registry.addresses()[target]@),
        named.len() == 0 && !registry.addresses().dom().contains(target) ==> registry.address_of(
            target,
            named,
        ) is None,
{
}

/// The name of a group holds something and neither begins nor ends with a blank.
pub proof fn law_group_names_are_trimmed(group_id: Seq<char>)
    ensures
        !transport::is_group_id(Seq::<char>::empty()),
        !transport::is_group_id(" "@ + group_id),
        !transport::is_group_id(group_id + " "@),
        group_id.len() > 0 && text::stripped(group_id, Strip::White) == group_id
            <==> transport::is_group_id(group_id),
{
    reveal_strlit(" ");
    assert((" "@ + group_id)[0] == ' ');
    assert((group_id + " "@).last() == ' ');
    law_stripping_leaves_no_ends(group_id, Strip::White);
}

/// What is left of a stripped text neither begins nor ends with what was stripped; a text
/// that does neither is left as it is.
pub proof fn law_stripping_leaves_no_ends(text: Seq<char>, strip: Strip)
    ensures
        ({
            let rest = text::stripped(text, strip);
            &&& rest.len() > 0 ==> !text::is_stripped(strip, rest[0]) && !text::is_stripped(
                strip,
                rest[rest.len() - 1],
            )
            &&& rest.len() <= text.len()
            &&& text.len() > 0 && !text::is_stripped(strip, text[0]) && !text::is_stripped(
                strip,
                text[text.len() - 1],
            ) ==> rest == text
            &&& text::stripped(rest, strip) == rest
        }),
{
    let front = text::stripped_front(text, strip);
    lemma_front(text, strip);
    lemma_back(front, strip);
    let rest = text::stripped_back(front, strip);
    lemma_front(rest, strip);
    lemma_back(rest, strip);
}

proof fn lemma_front(text: Seq<char>, strip: Strip)
    ensures
        ({
            let rest = text::stripped_front(text, strip);
            &&& rest.len() <= text.len()
            &&& rest == text.skip(text.len() - rest.len())
            &&& rest.len() > 0 ==> !text::is_stripped(strip, rest[0])
            &&& text.len() == 0 || !text::is_stripped(strip, text[0]) ==> rest == text
        }),
    decreases text.len(),
{
    if text.len() > 0 && text::is_stripped(strip, text[0]) {
        lemma_front(text.skip(1), strip);
        let rest = text::stripped_front(text, strip);
        assert(rest =~= text.skip(text.len() - rest.len()));
    } else {
        assert(text.skip(0) =~= text);
    }
}

proof fn lemma_back(text: Seq<char>, strip: Strip)
    ensures
        ({
            let rest = text::stripped_back(text, strip);
            &&& rest.len() <= text.len()
            &&& rest == text.take(rest.len() as int)
            &&& rest.len() > 0 ==> !text::is_stripped(strip, rest[rest.len() - 1]) && rest[0]
                == text[0]
            &&& text.len() == 0 || !text::is_stripped(strip, text[text.len() - 1]) ==> rest == text
        }),
    decreases text.len(),
{
    if text.len() > 0 && text::is_stripped(strip, text.last()) {
        lemma_back(text.drop_last(), strip);
        let rest = text::stripped_back(text, strip);
        assert(rest =~= text.take(rest.len() as int));
    } else {
        assert(text.take(text.len() as int) =~= text);
    }
}

/// A text without its slashes at the end ends in none, and only slashes were taken.
pub proof fn law_only_end_slashes_are_taken(text: Seq<char>, i: int)
    ensures
        ({
            let rest = text::without_end_slashes(text);
            &&& rest.len() <= text.len() && rest == text.take(rest.len() as int)
            &&& rest.len() > 0 ==> rest[rest.len() - 1] != '/'
            &&& rest.len() <= i < text.len() ==> text[i] == '/'
        }),
    decreases text.len(),
{
    if text.len() > 0 && text.last() == '/' {
        law_only_end_slashes_are_taken(text.drop_last(), i);
        let rest = text::without_end_slashes(text);
        assert(rest =~= text.take(rest.len() as int));
    } else {
        assert(text.take(text.len() as int) =~= text);
    }
}

/// The digits of a number are those that are read as such; a number that is padded has the
/// width that was asked for.
pub proof fn law_digits_are_digits(digit: nat, n: nat, width: nat)
    requires
        digit < 10,
    ensures
        text::digit_text(digit).len() == 1,
        text::digit_text(digit)[0] as u32 == 48 + digit,
        text::padded_text(n, width).len() == width,
        n < 10 ==> text::number_text(n) == text::digit_text(n),
        n >= 10 ==> text::number_text(n) == text::number_text(n / 10) + text::digit_text(n % 10),
        width > 0 ==> text::padded_text(n, width) == text::padded_text(n / 10, (width - 1) as nat)
            + text::digit_text(n % 10),
    decreases width,
{
    reveal_strlit("0");
    reveal_strlit("1");
    reveal_strlit("2");
    reveal_strlit("3");
    reveal_strlit("4");
    reveal_strlit("5");
    reveal_strlit("6");
    reveal_strlit("7");
    reveal_strlit("8");
    reveal_strlit("9");
    if width > 0 {
        law_digits_are_digits(digit, n / 10, (width - 1) as nat);
        assert(text::digit_text(n % 10).len() == 1);
    }
}

/// Letters of the Latin alphabet are lowered and nothing else changes, so that lowering
/// twice is lowering once.
pub proof fn law_lowering_changes_capitals_only(text: Seq<char>, i: int)
    requires
        0 <= i < text.len(),
    ensures
        text::lower_text(text).len() == text.len(),
        'A' as u32 <= text[i] as u32 <= 'Z' as u32 ==> text::lower_text(text)[i] as u32
            == text[i] as u32 + 32,
        !('A' as u32 <= text[i] as u32 <= 'Z' as u32) ==> text::lower_text(text)[i] == text[i],
{
}

/// A request is tried again only where another try can reach the leader: when this node is
/// not the leader, or when the leader was not reached.
pub proof fn law_only_lost_requests_are_retried(error: OrionSqliteRaftError)
    ensures
        error.is_retryable() <==> match error {
            OrionSqliteRaftError::NotLeader(_) => true,
            OrionSqliteRaftError::Transport(_) => true,
            OrionSqliteRaftError::Unavailable(_) => false,
            OrionSqliteRaftError::Write(_) => false,
            OrionSqliteRaftError::ApplyTimeout(_) => false,
            OrionSqliteRaftError::Internal(_) => false,
        },
{
}

/// A pause doubles until it reaches the longest one, and a request is tried at least once.
pub proof fn law_pauses_double(current: u64, max: u64, policy: ForwardRetryPolicy)
    ensures
        raft_client::doubled(current, max) <= max,
        2 * current <= max ==> raft_client::doubled(current, max) == 2 * current,
        2 * current > max ==> raft_client::doubled(current, max) == max,
        policy.attempts() >= 1,
        policy.max_attempts > 0 ==> policy.attempts() == policy.max_attempts,
        raft_client::nth_pause(policy, 0) == policy.initial_backoff_ms,
{
}

/// The leader is reached at its address where one is known: an empty one is none.
pub proof fn law_leader_address_is_the_hinted_one(hint: LeaderHint)
    ensures
        raft_client::known_address(hint) is Some <==> hint.leader_addr is Some
            && hint.leader_addr->0@.len() > 0,
        raft_client::known_address(hint) matches Some(addr) ==> addr == hint.leader_addr->0@,
{
}

/// Of a clock's time and an observed one the later counts, and the next time follows it by
/// the least step: the wall's millisecond where that is later, and otherwise the next count
/// within the same one.
pub proof fn law_clock_takes_the_least_step(
    last: HybridTimestamp,
    observed: Option<HybridTimestamp>,
    physical_ms: u64,
)
    ensures
        ({
            let base = hlc::later_of(last, observed);
            &&& base == last || observed == Some(base)
            &&& !hlc::before(base, last)
            &&& observed matches Some(timestamp) ==> !hlc::before(base, timestamp)
            &&& observed is None ==> base == last
            &&& base.physical_ms < physical_ms ==> hlc::following(base, physical_ms) == Some(
                HybridTimestamp { physical_ms, logical: 0 },
            )
            &&& base.physical_ms >= physical_ms && base.logical < u32::MAX ==> hlc::following(
                base,
                physical_ms,
            ) == Some(
                HybridTimestamp {
                    physical_ms: base.physical_ms,
                    logical: (base.logical + 1) as u32,
                },
            )
            &&& base.physical_ms >= physical_ms && base.logical == u32::MAX ==> hlc::following(
                base,
                physical_ms,
            ) is None
        }),
{
}

/// Of two times the one with the earlier millisecond comes first, and within one
/// millisecond the one with the lower count.
pub proof fn law_times_compare_by_milliseconds(a: HybridTimestamp, b: HybridTimestamp)
    ensures
        a.physical_ms < b.physical_ms ==> hlc::before(a, b),
        a.physical_ms == b.physical_ms ==> (hlc::before(a, b) <==> a.logical < b.logical),
        a.physical_ms > b.physical_ms ==> !hlc::before(a, b),
{
}

/// The kinds of files in the log are those of the file system, each its own.
pub proof fn law_kinds_carry_over(kind: SqliteFileKind, other: SqliteFileKind)
    ensures
        types::file_kind_of(SqliteFileKind::MainDb) == FileKind::MainDb,
        types::file_kind_of(SqliteFileKind::Wal) == FileKind::Wal,
        types::file_kind_of(SqliteFileKind::Journal) == FileKind::Journal,
        types::file_kind_of(SqliteFileKind::Temp) == FileKind::Temp,
        types::file_kind_of(SqliteFileKind::Other) == FileKind::Other,
        types::file_kind_of(kind) == types::file_kind_of(other) ==> kind == other,
{
}

/// What an operation carries are the bytes that it writes.
pub proof fn law_payload_is_what_is_written(ops: Seq<FileOp>, offset: int, bytes: Seq<u8>, size: int)
    ensures
        types::ops_payload(ops.push(FileOp::Write { offset, bytes })) == types::ops_payload(ops)
            + bytes.len(),
        types::ops_payload(ops.push(FileOp::Truncate { size })) == types::ops_payload(ops),
        types::ops_payload(ops.push(FileOp::Delete)) == types::ops_payload(ops),
        types::ops_payload(Seq::empty()) == 0,
{
    assert(ops.push(FileOp::Write { offset, bytes }).drop_last() =~= ops);
    assert(ops.push(FileOp::Truncate { size }).drop_last() =~= ops);
    assert(ops.push(FileOp::Delete).drop_last() =~= ops);
}

/// SQL may not reach beyond its database: it attaches and detaches none, makes and drops no
/// virtual tables and loads no extension, however it spells that. Other functions and
/// actions are its own.
pub proof fn law_sql_stays_in_its_database(action: SqliteAction)
    ensures
        action is Attach || action is Detach || action is CreateVtable || action is DropVtable
            ==> !authorizer::action_allowed(action),
        action matches SqliteAction::Function { function_name } ==> (authorizer::action_allowed(
            action,
        ) <==> text::lower_text(function_name@) != "load_extension"@),
        action is Other ==> authorizer::action_allowed(action),
        action matches SqliteAction::Pragma { pragma_name, pragma_value } ==> (
        authorizer::action_allowed(action) <==> authorizer::pragma_allowed(
            pragma_name@,
            match pragma_value {
                Some(value) => Some(value@),
                None => None,
            },
        )),
{
}

/// What a pragma may set: the rollback journal is deleted at the end of a transaction, what
/// is committed is on disk, locks are let go of, the schema is not written by hand, and
/// neither of the directories is chosen. Asking for a value is allowed, and so is every
/// other pragma.
pub proof fn law_pragmas_keep_the_database_safe(name: Seq<char>, value: Seq<char>)
    ensures
        text::lower_text(name) == "journal_mode"@ ==> (authorizer::pragma_allowed(name, Some(value))
            <==> authorizer::plain_value(value) == "delete"@),
        text::lower_text(name) == "synchronous"@ ==> (authorizer::pragma_allowed(name, Some(value))
            <==> authorizer::plain_value(value) == "full"@ || authorizer::plain_value(value)
            == "extra"@ || authorizer::plain_value(value) == "2"@ || authorizer::plain_value(value)
            == "3"@),
        text::lower_text(name) == "locking_mode"@ ==> (authorizer::pragma_allowed(name, Some(value))
            <==> authorizer::plain_value(value) == "normal"@),
        text::lower_text(name) == "writable_schema"@ ==> (authorizer::pragma_allowed(
            name,
            Some(value),
        ) <==> authorizer::plain_value(value) == "0"@ || authorizer::plain_value(value) == "off"@
            || authorizer::plain_value(value) == "false"@ || authorizer::plain_value(value)
            == "no"@),
        text::lower_text(name) == "temp_store_directory"@ || text::lower_text(name)
            == "data_store_directory"@ ==> !authorizer::pragma_allowed(name, Some(value))
            && !authorizer::pragma_allowed(name, None),
        text::lower_text(name) != "temp_store_directory"@ && text::lower_text(name)
            != "data_store_directory"@ ==> authorizer::pragma_allowed(name, None),
        text::lower_text(name) != "temp_store_directory"@ && text::lower_text(name)
            != "data_store_directory"@ && text::lower_text(name) != "journal_mode"@
            && text::lower_text(name) != "synchronous"@ && text::lower_text(name)
            != "locking_mode"@ && text::lower_text(name) != "writable_schema"@
            ==> authorizer::pragma_allowed(name, Some(value)),
{
    reveal_strlit("journal_mode");
    reveal_strlit("synchronous");
    reveal_strlit("locking_mode");
    reveal_strlit("writable_schema");
    reveal_strlit("temp_store_directory");
    reveal_strlit("data_store_directory");
    assert("journal_mode"@[0] == 'j');
    assert("locking_mode"@[0] == 'l');
    assert("temp_store_directory"@[0] == 't');
    assert("data_store_directory"@[0] == 'd');
    assert("journal_mode"@.len() == 12);
    assert("synchronous"@.len() == 11);
    assert("locking_mode"@.len() == 12);
    assert("writable_schema"@.len() == 15);
    assert("temp_store_directory"@.len() == 20);
    assert("data_store_directory"@.len() == 20);
}

/// Blanks, tabs and line ends are white space; no visible character of ASCII is. What is
/// stripped is either white space or one character.
pub proof fn law_visible_characters_are_not_white(c: char, other: char)
    ensures
        text::is_stripped(Strip::White, c) <==> text::is_white(c),
        text::is_stripped(Strip::Only(other), c) <==> c == other,
        c == ' ' || c == '\t' || c == '\n' || c == '\r' ==> text::is_white(c),
        '!' <= c <= '~' ==> !text::is_white(c),
{
}

/// Stripping takes all of what is stripped from the two ends of a text, and nothing else.
pub proof fn law_stripping_takes_the_ends(
    before: Seq<char>,
    rest: Seq<char>,
    after: Seq<char>,
    strip: Strip,
)
    requires
        forall|i: int| 0 <= i < before.len() ==> text::is_stripped(strip, #[trigger] before[i]),
        forall|i: int| 0 <= i < after.len() ==> text::is_stripped(strip, #[trigger] after[i]),
        rest.len() > 0 ==> !text::is_stripped(strip, rest[0]) && !text::is_stripped(
            strip,
            rest[rest.len() - 1],
        ),
    ensures
        text::stripped(before + rest + after, strip) == rest,
{
    let text = before + rest + after;
    if rest.len() > 0 {
        lemma_strip_front(before, rest + after, strip);
        assert(before + (rest + after) =~= text);
        lemma_strip_back(rest, after, strip);
    } else {
        let all = before + after;
        assert(text =~= all + Seq::<char>::empty());
        assert forall|i: int| 0 <= i < all.len() implies text::is_stripped(
            strip,
            #[trigger] all[i],
        ) by {
            if i < before.len() {
                assert(all[i] == before[i]);
            } else {
                assert(all[i] == after[i - before.len()]);
            }
        }
        lemma_strip_front(all, Seq::empty(), strip);
        assert(rest =~= Seq::empty());
    }
}

proof fn lemma_strip_front(before: Seq<char>, rest: Seq<char>, strip: Strip)
    requires
        forall|i: int| 0 <= i < before.len() ==> text::is_stripped(strip, #[trigger] before[i]),
        rest.len() > 0 ==> !text::is_stripped(strip, rest[0]),
    ensures
        text::stripped_front(before + rest, strip) == rest,
    decreases before.len(),
{
    let whole = before + rest;
    if before.len() > 0 {
        assert(whole[0] == before[0]);
        assert(whole.skip(1) =~= before.skip(1) + rest);
        assert forall|i: int| 0 <= i < before.skip(1).len() implies text::is_stripped(
            strip,
            #[trigger] before.skip(1)[i],
        ) by {
            assert(before.skip(1)[i] == before[i + 1]);
        }
        lemma_strip_front(before.skip(1), rest, strip);
    } else {
        assert(whole =~= rest);
    }
}

proof fn lemma_strip_back(rest: Seq<char>, after: Seq<char>, strip: Strip)
    requires
        forall|i: int| 0 <= i < after.len() ==> text::is_stripped(strip, #[trigger] after[i]),
        rest.len() > 0 ==> !text::is_stripped(strip, rest[rest.len() - 1]),
    ensures
        text::stripped_back(rest + after, strip) == rest,
    decreases after.len(),
{
    let whole = rest + after;
    if after.len() > 0 {
        assert(whole.last() == after[after.len() - 1]);
        assert(whole.drop_last() =~= rest + after.drop_last());
        assert forall|i: int| 0 <= i < after.drop_last().len() implies text::is_stripped(
            strip,
            #[trigger] after.drop_last()[i],
        ) by {
            assert(after.drop_last()[i] == after[i]);
        }
        lemma_strip_back(rest, after.drop_last(), strip);
    } else {
        assert(whole =~= rest);
    }
}

/// A value of a setting means the same bare, in quotes of either sort, with blanks around
/// it, and in whatever case it is written.
pub proof fn law_settings_may_be_quoted(value: Seq<char>)
    requires
        value.len() > 0,
        'a' <= value[0] <= 'z' || 'A' <= value[0] <= 'Z' || '0' <= value[0] <= '9',
        ({
            let last = value[value.len() - 1];
            'a' <= last <= 'z' || 'A' <= last <= 'Z' || '0' <= last <= '9'
        }),
    ensures
        ({
            let plain = authorizer::plain_value(value);
            &&& plain.len() == value.len()
            &&& forall|i: int|
                0 <= i < value.len() ==> (#[trigger] plain[i]) == if 'A' <= value[i] <= 'Z' {
                    (value[i] as u32 + 32) as char
                } else {
                    value[i]
                }
            &&& authorizer::plain_value(seq![' '] + value + seq![' ']) == plain
            &&& authorizer::plain_value(seq!['\''] + value + seq!['\'']) == plain
            &&& authorizer::plain_value(seq!['"'] + value + seq!['"']) == plain
        }),
{
    let none = Seq::<char>::empty();
    assert(none + value + none =~= value);
    law_stripping_takes_the_ends(none, value, none, Strip::White);
    law_stripping_takes_the_ends(none, value, none, Strip::Only('\''));
    law_stripping_takes_the_ends(none, value, none, Strip::Only('"'));
    law_stripping_takes_the_ends(seq![' '], value, seq![' '], Strip::White);
    let single = seq!['\''] + value + seq!['\''];
    assert(none + single + none =~= single);
    assert(single[single.len() - 1] == '\'');
    law_stripping_takes_the_ends(none, single, none, Strip::White);
    law_stripping_takes_the_ends(seq!['\''], value, seq!['\''], Strip::Only('\''));
    let double = seq!['"'] + value + seq!['"'];
    assert(none + double + none =~= double);
    assert(double[double.len() - 1] == '"');
    law_stripping_takes_the_ends(none, double, none, Strip::White);
    law_stripping_takes_the_ends(none, double, none, Strip::Only('\''));
    law_stripping_takes_the_ends(seq!['"'], value, seq!['"'], Strip::Only('"'));
}

/// A time that is handed out comes after the one that it was made from, by its milliseconds
/// first and by its count within them.
pub proof fn law_times_follow_their_base(base: HybridTimestamp, next: HybridTimestamp)
    requires
        hlc::follows(base, next),
    ensures
        base.physical_ms < next.physical_ms || (base.physical_ms == next.physical_ms && base.logical
            < next.logical),
        base.physical_ms < next.physical_ms ==> next.logical == 0,
{
    let physical_ms = choose|physical_ms: u64| #[trigger]
        hlc::following(base, physical_ms) == Some(next);
    assert(hlc::following(base, physical_ms) == Some(next));
}

/// A time that was written is read back, whatever follows it, and no two times are written
/// the same.
pub proof fn law_times_read_back(time: HybridTimestamp, other: HybridTimestamp, rest: Seq<u8>)
    ensures
        hlc::timestamp_decoding(hlc::encoded_timestamp(time) + rest) == Ok::<
            (u64, u32),
            Seq<char>,
        >((time.physical_ms, time.logical)),
        hlc::encoded_timestamp(time) == hlc::encoded_timestamp(other) ==> time == other,
{
    lemma_time_reads_back(time, rest);
    lemma_time_reads_back(time, Seq::empty());
    lemma_time_reads_back(other, Seq::empty());
}

proof fn lemma_time_reads_back(time: HybridTimestamp, rest: Seq<u8>)
    ensures
        hlc::timestamp_decoding(hlc::encoded_timestamp(time) + rest) == Ok::<
            (u64, u32),
            Seq<char>,
        >((time.physical_ms, time.logical)),
{
    let logical = codec::varint(time.logical as nat);
    codec::law_u64_reads_back(time.physical_ms, logical + rest);
    codec::law_u32_reads_back(time.logical, rest);
    assert(hlc::encoded_timestamp(time) + rest =~= codec::varint(time.physical_ms as nat) + (logical
        + rest));
}

} // verus!
