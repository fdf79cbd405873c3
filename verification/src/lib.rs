pub mod event;
pub mod instance;
pub mod metadata;
pub mod navigation;
pub mod notification;
pub mod operation;
pub mod subscription;
pub mod thread;
pub mod uuid;
