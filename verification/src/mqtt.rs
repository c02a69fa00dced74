use vstd::prelude::*;

use rust_mqtt::types::{MqttBinary, MqttString, MqttStringError};
use vstd::string::StringSliceAdditionalSpecFns;

verus! {

/// A UTF-8 string as MQTT encodes it.
#[verifier::external_type_specification]
#[verifier::external_body]
pub struct ExMqttString<'s>(MqttString<'s>);

/// Binary data as MQTT encodes it.
#[verifier::external_type_specification]
#[verifier::external_body]
pub struct ExMqttBinary<'b>(MqttBinary<'b>);

/// The longest string or binary field, in bytes, that MQTT's two-byte
/// length prefix can encode.
pub const MQTT_MAX_FIELD_LEN: usize = 0xffff;

/// The topic the device publishes its pings to.
pub const PING_TOPIC: &'static str = "watchdog/ping";

/// The payload of a ping.
pub const PING_PAYLOAD: &'static str = "Ping";

/// The client identifier the device presents to the broker.
pub const CLIENT_ID: &'static str = "watchdog-esp32";

/// Why a text cannot be sent as an MQTT string.
#[derive(PartialEq, Eq, Structural, Debug, Clone, Copy)]
pub enum MqttTextError {
    /// The text is not valid UTF-8.
    InvalidUtf8,
    /// The text contains a NUL character.
    ContainsNul,
    /// The text is longer than an MQTT string can be.
    TooLong,
}

/// Why the broker credentials cannot be sent.
#[derive(PartialEq, Eq, Structural, Debug, Clone, Copy)]
pub enum LoginError {
    /// The user name cannot be an MQTT string.
    UserName(MqttTextError),
    /// The password is longer than an MQTT binary field can be.
    PasswordTooLong,
}

/// The credentials the device logs in to the broker with.
pub struct BrokerLogin<'a> {
    pub user_name: MqttString<'a>,
    pub password: MqttBinary<'a>,
}

/// Whether the bytes `b` hold a NUL byte.
pub open spec fn has_nul(b: Seq<u8>) -> bool {
    exists|i: int| 0 <= i < b.len() && b[i] == 0
}

/// Whether an MQTT string can be made of the text whose UTF-8 bytes are `b`,
/// and if not, why.
pub open spec fn mqtt_text_check(b: Seq<u8>) -> Result<(), MqttTextError> {
    if has_nul(b) {
        Err(MqttTextError::ContainsNul)
    } else if b.len() > MQTT_MAX_FIELD_LEN {
        Err(MqttTextError::TooLong)
    } else {
        Ok(())
    }
}

/// The MQTT string that `MqttString::from_str` makes of the text whose
/// UTF-8 bytes are `bytes`: a function of those bytes alone.
pub uninterp spec fn mqtt_string_of(bytes: Seq<u8>) -> MqttString<'static>;

/// The MQTT binary field that `MqttBinary::from_slice` makes of `bytes`: a
/// function of those bytes alone.
pub uninterp spec fn mqtt_binary_of(bytes: Seq<u8>) -> MqttBinary<'static>;

/// `MqttString::from_str`: refuses a text holding a NUL byte, then one
/// longer than 65535 bytes, and otherwise wraps the text's bytes.
#[verifier::external_body]
fn mqtt_string_from_str<'a>(s: &'a str) -> (r: Result<MqttString<'a>, MqttTextError>)
    ensures
        match r {
            Ok(m) => mqtt_text_check(s.spec_bytes()) == Ok::<(), MqttTextError>(()) && m
                == mqtt_string_of(s.spec_bytes()),
            Err(e) => mqtt_text_check(s.spec_bytes()) == Err::<(), MqttTextError>(e),
        },
{
    match MqttString::from_str(s) {
        Ok(m) => Ok(m),
        Err(MqttStringError::Utf8Error(_)) => Err(MqttTextError::InvalidUtf8),
        Err(MqttStringError::NullCharacter) => Err(MqttTextError::ContainsNul),
        Err(MqttStringError::TooLargeToEncode) => Err(MqttTextError::TooLong),
    }
}

/// `MqttBinary::from_slice`: refuses data longer than 65535 bytes and
/// otherwise wraps it.
#[verifier::external_body]
fn mqtt_binary_from_slice<'a>(b: &'a [u8]) -> (r: Option<MqttBinary<'a>>)
    ensures
        r is Some <==> b@.len() <= MQTT_MAX_FIELD_LEN,
        r matches Some(field) ==> field == mqtt_binary_of(b@),
{
    MqttBinary::from_slice(b).ok()
}

/// Turns `text` into an MQTT string, or says why it cannot be one.
pub fn mqtt_text<'a>(text: &'a str) -> (r: Result<MqttString<'a>, MqttTextError>)
    ensures
        match r {
            Ok(m) => mqtt_text_check(text.spec_bytes()) == Ok::<(), MqttTextError>(()) && m
                == mqtt_string_of(text.spec_bytes()),
            Err(e) => mqtt_text_check(text.spec_bytes()) == Err::<(), MqttTextError>(e),
        },
{
    mqtt_string_from_str(text)
}

/// Prepares the user name and password the device logs in with. The user
/// name is checked first.
pub fn broker_login<'a>(user_name: &'a str, password: &'a str) -> (r: Result<
    BrokerLogin<'a>,
    LoginError,
>)
    ensures
        match r {
            Ok(login) => mqtt_text_check(user_name.spec_bytes()) == Ok::<(), MqttTextError>(())
                && password.spec_bytes().len() <= MQTT_MAX_FIELD_LEN && login.user_name
                == mqtt_string_of(user_name.spec_bytes()) && login.password == mqtt_binary_of(
                password.spec_bytes(),
            ),
            Err(LoginError::UserName(e)) => mqtt_text_check(user_name.spec_bytes()) == Err::<
                (),
                MqttTextError,
            >(e),
            Err(LoginError::PasswordTooLong) => mqtt_text_check(user_name.spec_bytes()) == Ok::<
                (),
                MqttTextError,
            >(()) && password.spec_bytes().len() > MQTT_MAX_FIELD_LEN,
        },
{
    let user = match mqtt_text(user_name) {
        Ok(u) => u,
        Err(e) => return Err(LoginError::UserName(e)),
    };
    match mqtt_binary_from_slice(password.as_bytes()) {
        Some(p) => Ok(BrokerLogin { user_name: user, password: p }),
        None => Err(LoginError::PasswordTooLong),
    }
}

/// Whether the broker credentials can be sent as they are configured.
pub open spec fn login_acceptable(user_name: Seq<u8>, password: Seq<u8>) -> bool {
    mqtt_text_check(user_name) == Ok::<(), MqttTextError>(()) && password.len()
        <= MQTT_MAX_FIELD_LEN
}

/// The credentials the device logs in with, for credentials that can be
/// sent: the user name and the password bytes as MQTT fields.
pub fn broker_credentials<'a>(user_name: &'a str, password: &'a str) -> (login: BrokerLogin<'a>)
    requires
        login_acceptable(user_name.spec_bytes(), password.spec_bytes()),
    ensures
        login.user_name == mqtt_string_of(user_name.spec_bytes()),
        login.password == mqtt_binary_of(password.spec_bytes()),
{
    let checked = broker_login(user_name, password);
    assert(checked is Ok);
    checked.unwrap()
}

/// Which texts MQTT takes as strings: any text without a NUL byte of at
/// most 65535 bytes, and no text that holds a NUL byte, however short.
pub proof fn lemma_mqtt_text_limits(b: Seq<u8>)
    ensures
        (forall|i: int| 0 <= i < b.len() ==> b[i] != 0) && b.len() <= 65535 ==> mqtt_text_check(b)
            is Ok,
        (forall|i: int| 0 <= i < b.len() ==> b[i] != 0) && b.len() >= 65536 ==> mqtt_text_check(b)
            == Err::<(), MqttTextError>(MqttTextError::TooLong),
        (exists|i: int| 0 <= i < b.len() && b[i] == 0) ==> mqtt_text_check(b) == Err::<
            (),
            MqttTextError,
        >(MqttTextError::ContainsNul),
{
}

} // verus!
