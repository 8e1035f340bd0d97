//! The logic of monitorhop, a software KVM: the wire protocol, the client
//! table, and the rules by which connections, listeners and the user
//! interface act.
pub mod bytes;
pub mod text;
pub mod input_event;
pub mod proto;
pub mod clipboard;
pub mod archive;
pub mod assembler;
pub mod addr;
pub mod ip_text;
pub mod ip_distinct;
pub mod locks;
pub mod network;
pub mod client;
pub mod client_object;
pub mod client_row;
pub mod scancode;
pub mod release_shortcut;
pub mod firewall;
pub mod paths;
pub mod desktop_install;
pub mod glyph_font;
pub mod single_instance;
pub mod daemon;
pub mod power;
pub mod latency;
pub mod datagram;
pub mod retry;
pub mod connect;
pub mod dialer;
pub mod listen;
pub mod clipboard_files;
pub mod emulation;
pub mod frontend;
pub mod launch;
