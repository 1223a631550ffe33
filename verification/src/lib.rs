//! Multi-provider account and session authentication library.
//!
//! The crate manages identities for cloud-IDE accounts on one machine: a
//! durable account store, a single-slot pending-login state machine with an
//! anti-replay correlation protocol, a deep-link router that normalizes the
//! heterogeneous delivery shapes of an OAuth redirect, a provider-exchange
//! abstraction, and a machine-identifier binder that enforces a one-to-one
//! binding between the machine identifier and an account.

mod account;
mod auth;
mod binmap;
mod deep_link;
mod errors;
mod export;
mod machine;
mod provider;
mod store;

pub use account::Account;
pub use binmap::decode_token_map;
pub use binmap::dec_map;
pub use binmap::enc_map;
pub use binmap::encode_token_map;
pub use binmap::lemma_token_map_round_trip;
pub use binmap::pairs_view;
pub use binmap::FIELD_LIMIT;
pub use account::AccountStatus;
pub use account::AccountV;
pub use account::Credentials;
pub use account::CredentialsV;
pub use auth::AuthState;
pub use auth::AuthStateV;
pub use auth::LOGIN_TIMEOUT_MS;
pub use auth::LoginMatch;
pub use auth::LoginMatchV;
pub use auth::PendingLogin;
pub use auth::PendingLoginV;
pub use auth::begin_accepts;
pub use auth::constant_time_eq;
pub use auth::lemma_cancel_then_begin_accepts;
pub use auth::pending_unexpired;
pub use deep_link::callback_token;
pub use deep_link::deep_link_command_value;
pub use deep_link::extract_url_from_args;
pub use deep_link::find_char_from;
pub use deep_link::json_string_value;
pub use deep_link::normalize_payload;
pub use deep_link::normalized_payload;
pub use deep_link::parse_callback;
pub use deep_link::str_starts_with;
pub use deep_link::url_in_args;
pub use errors::AuthError;
pub use errors::Provider;
pub use export::ExportedAccount;
pub use export::ExportedAccountV;
pub use export::as_account;
pub use export::export_model;
pub use export::export_of;
pub use export::export_valid;
pub use export::exports_view;
pub use export::id_listed;
pub use export::import_model;
pub use export::import_one;
pub use export::import_skipped;
pub use export::import_skips;
pub use export::lemma_export_import_round_trip;
pub use machine::BinderV;
pub use machine::Binding;
pub use machine::BindingV;
pub use machine::MachineGuidBinder;
pub use machine::account_bound;
pub use machine::bindings_unique;
pub use machine::check_guid_text;
pub use machine::is_guid_text;
pub use machine::is_hex_digit;
pub use machine::lemma_unbind_frees_machine;
pub use machine::machine_bound;
pub use machine::pair_bound;
pub use provider::BeginAction;
pub use provider::DevicePollAction;
pub use provider::DevicePollResponse;
pub use provider::DevicePollState;
pub use provider::SLOW_DOWN_STEP_MS;
pub use provider::begin_request;
pub use provider::device_poll_step;
pub use provider::direct_token_ok;
pub use provider::finish_login;
pub use provider::validate_direct_token;
pub use store::AccountStore;
pub use store::RefreshPlan;
pub use store::binding_backed;
pub use store::has_id;
pub use store::occurs_in;
pub use store::status_change_invalid;
pub use store::survivor_of;
pub use store::lemma_refresh_preserves_mirrors;
pub use store::mirrors;
pub use store::store_wf;
