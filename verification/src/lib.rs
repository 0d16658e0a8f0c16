pub mod cache;
pub mod convertor;
pub mod date;
pub mod desensitized;
pub mod id_card_util;
pub mod radix;
pub mod random_util;
pub mod secure;
pub mod text;
