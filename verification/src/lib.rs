pub mod backend_config;
pub mod buffer;
pub mod mysql_client;
pub mod mysql_handshake;
pub mod mysql_login;
pub mod mysql_packet;
pub mod postgres_client;
pub mod postgres_login;
pub mod postgres_wire;
pub mod rds_token;
pub mod scram;
pub mod text;
pub mod tls;
pub mod wire;
