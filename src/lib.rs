pub mod mpsc;
pub mod prefix;
pub mod trust;
pub mod minqueue;
pub mod conway;
pub mod lru_cache;
