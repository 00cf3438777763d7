pub mod entropy;
pub mod cipher_key;
pub mod generate_var;
pub mod secure_delete;
pub mod securitypassword;
