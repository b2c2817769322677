//! A terminal todo-list manager, verified with Verus.
//!
//! The library holds everything with observable logic: the data model of a
//! todo item, the JSON codec for the backing file, the whole-file store
//! protocol, and the input-dispatch / focus state machine of the interactive
//! screen. The unverified binary around it only does terminal drawing, file
//! reads and writes, and the background input/tick thread.

pub mod codec;
pub mod dispatch;
pub mod laws;
pub mod model;
pub mod render;
pub mod store;

pub use render::selected_todo;

pub use dispatch::App;
pub use dispatch::Outcome;
pub use dispatch::TICK_MS;
pub use dispatch::dispatch;
pub use dispatch::remaining_timeout;
pub use dispatch::tick_due;

pub use codec::ID_ENC_LIMIT;
pub use codec::encode_todos;
pub use codec::parse_todos;
pub use store::Db;
pub use store::ID_RANGE;

pub use model::Error;
pub use model::Event;
pub use model::FocusedInput;
pub use model::InputStates;
pub use model::Key;
pub use model::MenuItem;
pub use model::TodoItem;
pub use model::TodoModel;
pub use model::copy_chars;
