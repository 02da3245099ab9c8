pub mod board;
pub mod card;
pub mod stack;

pub use board::Board;
pub use board::Click;
pub use board::StackType;
pub use card::Card;
pub use card::Suit;
pub use stack::Stack;
pub use stack::create_deck;
