pub mod finder_state;
pub mod tree_state;
pub mod logo;
pub mod activity;
pub mod interactor_state;
pub mod layout;
pub mod radar_state;
