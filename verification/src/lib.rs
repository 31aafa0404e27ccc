//! Verified core of the wjsm runtime: the colored-handle protocol of the
//! generational ZGC (colors, pages, marking and relocation bookkeeping,
//! barriers, the young and old collectors, the remembered set, host roots,
//! relocation coordination and pacing decisions), the runtime module
//! registry and loader plans, JSON text, the crypto bridge, and the pure
//! parts of the host helpers.

pub mod clock;
pub mod color;
pub mod page;
pub mod words;
pub mod mark;
pub mod relocate;
pub mod handle;
pub mod barrier;
pub mod module_registry;
pub mod crypto;
pub mod marking;
pub mod concurrent;
pub mod director;
pub mod generations;
pub mod module_loader;
pub mod json;
pub mod descriptor;
pub mod property_key;
pub mod ordered;
pub mod remset;
pub mod young;
pub mod old_mark;
pub mod host_roots;
pub mod host_methods;
pub mod heap_growth;
pub mod cstring;
pub mod object_slots;
pub mod object_layout;
pub mod proxy;
pub mod own_keys;
pub mod construct;
pub mod path_key;
pub mod microtask;
