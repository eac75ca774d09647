//! Orbit: a content-addressed version control engine with a framed
//! synchronisation protocol.
//!
//! The crate holds the engine's logic: object identifiers, the object model,
//! the on-disk store layout, the metadata index and status classification,
//! remote URL parsing, the wire framing and the decisions of a sync session.
//! Reading and writing files and sockets is left to the caller, which hands
//! the library plain values.
mod account;
mod checkout;
mod error;
mod index;
mod objects;
mod oid;
mod refs;
mod remote_name;
mod session;
mod snapshot;
mod status;
mod store;
mod sync;
mod text;
mod url;
mod vnp;
mod walk;

pub use oid::{hash_data, is_valid_oid};
pub use url::{requires_tls, OrbitUrl, UrlError};
pub use error::OrbitError;
pub use objects::{
    classify_parsed, Commit, Directory, DirectoryEntry, File, ObjectKind, StoredObject, MODE_DIR, MODE_FILE};
pub use vnp::{
    decode_frame, decode_len, encode_frame, encode_len, split_object_data, ObjectReceiver, VnpCommand,
    MAX_FRAME_LEN, OBJECT_DATA_CHUNK,
};
pub use walk::{contains_string, GraphWalk};
pub use sync::{
    check_auth_reply, check_create_reply, check_final_reply, check_object_header, check_repository_list,
    check_select_reply, check_want_reply, request_for, serve_step, tip_after_download, upload_set,
    verify_received, SelectStep, ServeStep,
};
pub use index::{IndexEntry, VosIndex};
pub use status::{compute_status, files_to_hash, ContentId, DiskFile, FileStatus};
pub use snapshot::{
    file_object, is_repository_dir, join_path, new_commit, next_in_history, tree_entry, DEFAULT_AUTHOR,
    ORB_DIR,
};
pub use store::{object_path, plan_put, PutPlan};
pub use account::{admin_users_url, email_shape_ok, is_valid_email, namespace_of};
pub use checkout::{files_to_revert, restore_steps, RestoreStep};
pub use refs::{local_tips, tips_from_trimmed};
pub use remote_name::{author_line, extract_repo_name};
pub use session::{Phase, Session, SessionMode, Step};
