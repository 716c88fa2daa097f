//! A small user-record service library: the domain record with its wire
//! codec, the uniform application error, query-string parsing, the model
//! of the backing user table, and the request dispatcher.

mod codec;
mod dispatch;
mod entities;
mod errors;
mod query;
mod store;
mod strutil;

pub use entities::{code_seq, lemma_sex_code_round_trip, sex_of_code, user_from_columns, user_wf, Sex, User, UserView};
pub use dispatch::{added_user_response, error_response, health_response, not_found_response, opt_view, route, user_by_id_response, users_by_name_response, Endpoints, HttpResponse, Method, Route};
pub use errors::AppError;
pub use query::{get_param_value, lookup_param, missing_msg, pairs_of, param_lookup_spec, parse_param, parse_param_spec, parse_query_params, parse_query_spec, unwrap, Param};
pub use codec::{decode_user, enc_user, enc_users, encode_user, encode_users, parse_user_spec, views_of};
pub use codec::{lemma_enc_user_injective, lemma_parse_user_complete, lemma_parse_user_sound};
pub use store::{has_id, init_spec, lemma_duplicate_insert_rejected, lemma_init_db_idempotent, rows_with_name, TableView, UserTable};
