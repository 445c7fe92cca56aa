//! What is sent to the display's service: where a picture is pushed, and in what form.

use vstd::prelude::*;
use vstd::string::StringExecFns;

verus! {

/// The HTTP status with which the service accepts a push.
pub const ACCEPTED: u16 = 200;

/// The body of a push: the device, the installation on it, and the picture as text.
#[derive(Clone, Debug, PartialEq, Eq)]
pub struct TidbytPayload {
    pub device_id: String,
    pub installation_id: String,
    pub image: String,
    pub background: bool,
}

/// The text that the standard base64 alphabet, with padding, gives for a run of bytes.
pub uninterp spec fn base64_standard(bytes: Seq<u8>) -> Seq<char>;

/// The bytes are few enough for the length of their base64 text to be counted.
pub open spec fn encodable(bytes: Seq<u8>) -> bool {
    4 * (bytes.len() / 3) + 4 <= usize::MAX
}

/// `base64::Engine::encode` of `base64::engine::general_purpose::STANDARD`. The text
/// depends on the bytes alone. The engine stops the program where the length of the text
/// cannot be counted, which `encodable` leaves out.
#[verifier::external_body]
pub(crate) fn encode_base64(bytes: &Vec<u8>) -> (text: String)
    requires
        encodable(bytes@),
    ensures
        text@ == base64_standard(bytes@),
{
    base64::Engine::encode(&base64::engine::general_purpose::STANDARD, bytes)
}

/// The address of the service, in front of the name of a device.
pub const DEVICES: &'static str = "https://api.tidbyt.com/v0/devices/";

/// The name of the installation that pictures are pushed to.
pub const INSTALLATION: &'static str = "custom";

/// The address to which pictures for a device are pushed.
pub open spec fn endpoint_of(device_id: Seq<char>) -> Seq<char> {
    DEVICES@ + device_id + "/push"@
}

/// The address to which pictures for the device are pushed.
pub fn push_endpoint(device_id: &str) -> (endpoint: String)
    ensures
        endpoint@ == endpoint_of(device_id@),
{
    let mut endpoint = String::from_str(DEVICES);
    endpoint.append(device_id);
    endpoint.append("/push");
    endpoint
}

/// The body that pushes the picture in `file_contents` to the device: the picture as
/// base64 text, for the installation `INSTALLATION`, to be shown in the background.
pub fn push_payload(file_contents: &Vec<u8>, device_id: &str) -> (payload: TidbytPayload)
    requires
        encodable(file_contents@),
    ensures
        payload.device_id@ == device_id@,
        payload.installation_id@ == INSTALLATION@,
        payload.image@ == base64_standard(file_contents@),
        payload.background,
{
    TidbytPayload {
        device_id: String::from_str(device_id),
        installation_id: String::from_str(INSTALLATION),
        image: encode_base64(file_contents),
        background: true,
    }
}

/// Whether the bytes are few enough to be pushed.
pub fn can_encode(file_contents: &Vec<u8>) -> (ok: bool)
    ensures
        ok == encodable(file_contents@),
{
    file_contents.len() / 3 <= (usize::MAX - 4) / 4
}

/// The body that pushes the picture to the device, or nothing where the picture is too
/// large to be sent.
pub fn try_push_payload(file_contents: &Vec<u8>, device_id: &str) -> (payload: Option<TidbytPayload>)
    ensures
        payload is Some <==> encodable(file_contents@),
        payload matches Some(p) ==> {
            &&& p.device_id@ == device_id@
            &&& p.installation_id@ == INSTALLATION@
            &&& p.image@ == base64_standard(file_contents@)
            &&& p.background
        },
{
    if can_encode(file_contents) {
        Some(push_payload(file_contents, device_id))
    } else {
        None
    }
}

/// Whether the service accepted a push that it answered with `status`.
pub fn push_accepted(status: u16) -> (accepted: bool)
    ensures
        accepted == (status == ACCEPTED),
{
    status == ACCEPTED
}

} // verus!
