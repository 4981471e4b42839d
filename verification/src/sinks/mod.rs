pub mod vectreesink;
