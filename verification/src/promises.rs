//! What the library promises, said of its functions themselves: each law takes the results of
//! calls, whatever they were, and states what holds of them and between them.

pub mod downloads;
pub mod histories;
pub mod networks;
pub mod rooms;
pub mod sealing;
pub mod texts;
pub mod transfers;
