//! The decisions of a watchdog device that pings a home lab's MQTT broker
//! once per wake cycle and alerts a Telegram chat, once, when the broker
//! stops answering, and again, once, when it answers again.
//!
//! - `alert`: the alert state kept across deep sleep, and what each ping
//!   outcome calls for;
//! - `cycle`: the end of a wake cycle, and the sleep interval;
//! - `broker`: reading the broker's address;
//! - `decimal`: reading and writing unsigned decimal numbers;
//! - `telegram`: the notices and the bot API request that carries them;
//! - `mqtt`: the broker credentials and the ping's topic and payload;
//! - `seed`: the seeds of the network stack and of the TLS generator;
//! - `wifi`: the steps of the Wi-Fi supervisor.

use vstd::prelude::*;

pub mod alert;
pub mod broker;
pub mod cycle;
pub mod decimal;
pub mod mqtt;
pub mod seed;
pub mod telegram;
pub mod wifi;
