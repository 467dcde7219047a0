pub mod addr;
pub mod codec;
pub mod error;
pub mod store;

pub use codec::Note;
pub use store::Account;
pub use store::Store;
pub use error::NoteError;
