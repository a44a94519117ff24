pub mod chess_engine;
