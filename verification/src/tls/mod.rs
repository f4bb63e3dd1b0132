pub mod decryptor;
