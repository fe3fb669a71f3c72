//! MQTT settings: quality of service and credentials.
//!
//! The connection and its threads run in the application.

use vstd::prelude::*;
use crate::config::MotionDetectionConfig;
use crate::error::AppError;

verus! {

/// MQTT delivery guarantee.
#[derive(Clone, Copy, Debug, PartialEq, Eq, Structural)]
pub enum MqttQos {
    AtMostOnce,
    AtLeastOnce,
    ExactlyOnce,
}

#[derive(Debug, PartialEq, Eq, Structural)]
pub enum MqttError {
    InvalidQos(u8),
}

#[derive(Debug, PartialEq, Eq, Structural)]
pub enum MqttRuntimeError {
    PublishThread,
    EventThread,
}

/// MQTT levels 0, 1 and 2; any other level is refused.
pub fn qos_from_u8(value: u8) -> (r: Result<MqttQos, MqttError>)
    ensures
        value == 0 ==> r == Ok::<MqttQos, MqttError>(MqttQos::AtMostOnce),
        value == 1 ==> r == Ok::<MqttQos, MqttError>(MqttQos::AtLeastOnce),
        value == 2 ==> r == Ok::<MqttQos, MqttError>(MqttQos::ExactlyOnce),
        value > 2 ==> r == Err::<MqttQos, MqttError>(MqttError::InvalidQos(value)),
{
    match value {
        0 => Ok(MqttQos::AtMostOnce),
        1 => Ok(MqttQos::AtLeastOnce),
        2 => Ok(MqttQos::ExactlyOnce),
        _ => Err(MqttError::InvalidQos(value)),
    }
}

/// The credentials to log in with: a non-empty username, with the password or an empty one.
pub fn mqtt_credentials(settings: &MotionDetectionConfig) -> (r: Option<(String, String)>)
    ensures
        (settings.mqtt_username matches Some(u) && u@.len() > 0) ==> (r matches Some(c) && c.0@
            == settings.mqtt_username.unwrap()@ && c.1@ == (match settings.mqtt_password {
            Some(p) => p@,
            None => Seq::<char>::empty(),
        })),
        !(settings.mqtt_username matches Some(u) && u@.len() > 0) ==> r is None,
{
    match &settings.mqtt_username {
        Some(username) => {
            if username.as_str().unicode_len() == 0 {
                return None;
            }
            let password = match &settings.mqtt_password {
                Some(p) => p.clone(),
                None => String::new(),
            };
            Some((username.clone(), password))
        },
        None => None,
    }
}

/// The program error for a failed MQTT thread.
pub fn map_mqtt_runtime_error(error: MqttRuntimeError) -> (r: AppError)
    ensures
        error == MqttRuntimeError::PublishThread ==> r is MqttPublishThread,
        error == MqttRuntimeError::EventThread ==> r is MqttEventThread,
{
    match error {
        MqttRuntimeError::PublishThread => AppError::MqttPublishThread,
        MqttRuntimeError::EventThread => AppError::MqttEventThread,
    }
}

} // verus!
