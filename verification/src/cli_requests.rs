use vstd::prelude::*;

use crate::protocol::{AckType, CommandPayload, CommandRequest, LinkAckArgs, PROTOCOL_VERSION};
use crate::responses::{WifiProfile, WifiProfilesResponseData};
use crate::text::text;
use crate::trace::TraceOptions;

verus! {

/// A request together with its encoded bytes.
#[derive(Debug, Clone)]
pub struct PreparedRequest {
    pub request: CommandRequest,
    pub bytes: Vec<u8>,
}

/// A lower-case hexadecimal digit.
pub open spec fn is_lower_hex(c: char) -> bool {
    ('0' <= c && c <= '9') || ('a' <= c && c <= 'f')
}

/// The hyphenated text of a random (version 4, RFC 4122 variant) UUID: 36 characters,
/// hyphens at 8, 13, 18 and 23, lower-case hex digits elsewhere, `4` at 14 and one of
/// `8`, `9`, `a`, `b` at 19.
pub open spec fn uuid_v4_text(s: Seq<char>) -> bool {
    &&& s.len() == 36
    &&& forall|i: int| 0 <= i < 36 ==> if i == 8 || i == 13 || i == 18 || i == 23 {
        #[trigger] s[i] == '-'
    } else {
        is_lower_hex(s[i])
    }
    &&& s[14] == '4'
    &&& (s[19] == '8' || s[19] == '9' || s[19] == 'a' || s[19] == 'b')
}

/// Makes a random request identifier with `uuid::Uuid::new_v4` and writes it with its
/// `Display`, which gives the hyphenated lower-case form. The identifier is random: only
/// its form is stated.
#[verifier::external_body]
fn new_request_id() -> (r: String)
    ensures
        uuid_v4_text(r@),
{
    uuid::Uuid::new_v4().to_string()
}

/// A request for `payload` under a fresh random identifier.
pub fn build_request(payload: CommandPayload) -> (r: CommandRequest)
    ensures
        uuid_v4_text(r.id@),
        r.payload == payload,
        r.v@ == PROTOCOL_VERSION@,
{
    CommandRequest::new(new_request_id(), payload)
}

/// The link acknowledgement request sent for a response.
pub fn link_ack_request(
    request_id: &str,
    ack_type: AckType,
    response_seq: u64,
    chunk_index: Option<usize>,
) -> (r: CommandRequest)
    ensures
        r.id@ == request_id@,
        r.payload == CommandPayload::LinkAck(LinkAckArgs { ack_type, response_seq, chunk_index }),
        r.v@ == PROTOCOL_VERSION@,
{
    CommandRequest::new(
        text(request_id),
        CommandPayload::LinkAck(LinkAckArgs { ack_type, response_seq, chunk_index }),
    )
}

/// A saved Wi-Fi profile offered for deletion.
#[derive(Clone, Debug, PartialEq, Eq)]
pub struct ProfileChoice {
    pub uuid: String,
    pub label: String,
}

/// The choice offered for a profile: its UUID, labelled `"{ssid} ({uuid})"`.
pub open spec fn choice_of(p: WifiProfile) -> (Seq<char>, Seq<char>) {
    (p.uuid@, p.ssid@ + " ("@ + p.uuid@ + ")"@)
}

/// The profiles that may be deleted, in order: those not in use.
pub open spec fn deletable(profiles: Seq<WifiProfile>) -> Seq<(Seq<char>, Seq<char>)>
    decreases profiles.len(),
{
    if profiles.len() == 0 {
        Seq::empty()
    } else {
        let rest = deletable(profiles.drop_last());
        if profiles.last().active {
            rest
        } else {
            rest.push(choice_of(profiles.last()))
        }
    }
}

pub open spec fn choices_view(c: Seq<ProfileChoice>) -> Seq<(Seq<char>, Seq<char>)> {
    c.map_values(|x: ProfileChoice| (x.uuid@, x.label@))
}

pub fn deletable_profile_choices(data: &WifiProfilesResponseData) -> (r: Vec<ProfileChoice>)
    ensures
        choices_view(r@) == deletable(data.profiles@),
        choices_view(r@) == data.profiles@.filter(|p: WifiProfile| !p.active).map_values(
            |p: WifiProfile| (p.uuid@, p.ssid@ + " ("@ + p.uuid@ + ")"@),
        ),
{
    proof {
        lemma_choices_are_the_inactive_profiles(data.profiles@);
    }
    let mut out: Vec<ProfileChoice> = Vec::new();
    let mut i: usize = 0;
    while i < data.profiles.len()
        invariant
            i <= data.profiles@.len(),
            choices_view(out@) == deletable(data.profiles@.take(i as int)),
        decreases data.profiles@.len() - i,
    {
        let p = &data.profiles[i];
        let ghost before = choices_view(out@);
        if !p.active {
            let mut label = text(p.ssid.as_str());
            label.append(" (");
            label.append(p.uuid.as_str());
            label.append(")");
            let choice = ProfileChoice { uuid: text(p.uuid.as_str()), label };
            out.push(choice);
            assert(choices_view(out@) =~= before.push(choice_of(*p)));
        }
        i = i + 1;
        assert(data.profiles@.take(i as int).drop_last() =~= data.profiles@.take(i - 1));
    }
    assert(data.profiles@.take(data.profiles@.len() as int) =~= data.profiles@);
    out
}

/// How the interactive client prints traces.
pub struct InteractiveTracePrinter {
    pub options: TraceOptions,
}

impl InteractiveTracePrinter {
    /// A printer that hides secrets unless raw output was asked for.
    pub fn new(unsafe_raw: bool) -> (p: InteractiveTracePrinter)
        ensures
            p.options.redact_secrets == !unsafe_raw,
    {
        let options = if unsafe_raw {
            TraceOptions::unsafe_raw()
        } else {
            TraceOptions::safe()
        };
        InteractiveTracePrinter { options }
    }

    pub fn options(&self) -> (o: TraceOptions)
        ensures
            o == self.options,
    {
        self.options
    }
}


/// The profiles offered for deletion are exactly the profiles not in use, in their order,
/// each labelled `"{ssid} ({uuid})"`: one choice per inactive profile and none for the
/// active ones.
pub proof fn lemma_choices_are_the_inactive_profiles(profiles: Seq<WifiProfile>)
    ensures
        deletable(profiles) == profiles.filter(|p: WifiProfile| !p.active).map_values(
            |p: WifiProfile| (p.uuid@, p.ssid@ + " ("@ + p.uuid@ + ")"@),
        ),
        deletable(profiles).len() == profiles.filter(|p: WifiProfile| !p.active).len(),
        forall|i: int|
            0 <= i < profiles.len() && !profiles[i].active ==> deletable(profiles).contains(
                (profiles[i].uuid@, (#[trigger] profiles[i]).ssid@ + " ("@ + profiles[i].uuid@ + ")"@),
            ),
    decreases profiles.len(),
{
    reveal(Seq::filter);
    let pred = |p: WifiProfile| !p.active;
    let f = |p: WifiProfile| (p.uuid@, p.ssid@ + " ("@ + p.uuid@ + ")"@);
    if profiles.len() == 0 {
        assert(profiles.filter(pred) =~= Seq::<WifiProfile>::empty());
        assert(profiles.filter(pred).map_values(f) =~= Seq::<(Seq<char>, Seq<char>)>::empty());
    } else {
        let d = profiles.drop_last();
        lemma_choices_are_the_inactive_profiles(d);
        assert(profiles.filter(pred) == if pred(profiles.last()) {
            d.filter(pred).push(profiles.last())
        } else {
            d.filter(pred)
        });
        if pred(profiles.last()) {
            assert(profiles.filter(pred).map_values(f) =~= d.filter(pred).map_values(f).push(
                choice_of(profiles.last()),
            ));
        }
        assert forall|i: int| 0 <= i < profiles.len() && !profiles[i].active implies deletable(
            profiles,
        ).contains(choice_of(#[trigger] profiles[i])) by {
            if i < profiles.len() - 1 {
                assert(d[i] == profiles[i]);
                let k = choose|k: int| 0 <= k < deletable(d).len() && deletable(d)[k] == choice_of(d[i]);
                assert(deletable(profiles)[k] == choice_of(profiles[i]));
            } else {
                assert(deletable(profiles).last() == choice_of(profiles[i]));
                assert(deletable(profiles)[deletable(profiles).len() - 1] == choice_of(profiles[i]));
            }
        }
    }
}

} // verus!
