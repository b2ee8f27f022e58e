//! Usage rights of a parametric typeface, and their 32-byte record.
//!
//! A license binds a set of rights, platforms, a title, a seat limit and an
//! expiry to the hash of one encoded parameter block. Typefaces generated
//! from parameters alone carry the `Parametric` type and pass validation
//! whenever the parameter block is the one they were issued for.

use vstd::prelude::*;
use crate::hash::{fnv1a, fnv1a_hash};
use crate::wire::{
    le_bytes, le_value, lemma_le_bytes_len, lemma_le_bytes_of_value, lemma_le_value_of_bytes,
    lemma_radix_pow_values, read_le, write_le,
};

verus! {

/// Usage rights bit field.
#[derive(Debug, Clone, Copy, PartialEq, Eq, Structural)]
pub struct UsageRights(pub u16);

impl UsageRights {
    pub const COMMERCIAL: u16 = 0x01;

    pub const MODIFICATION: u16 = 0x02;

    pub const REDISTRIBUTION: u16 = 0x04;

    pub const EMBEDDING: u16 = 0x08;

    pub const DERIVATIVE: u16 = 0x10;

    pub const SERVER_USE: u16 = 0x20;

    pub const BROADCAST: u16 = 0x40;

    pub const PRINT: u16 = 0x80;

    pub const GAME_BUNDLE: u16 = 0x100;

    pub const CJK_EXTENDED: u16 = 0x200;

    /// Standard game distribution rights: commercial use, modification,
    /// embedding and bundling with a game.
    pub const GAME_STANDARD: u16 = 0x010B;

    /// All ten rights.
    pub const ALL: u16 = 0x03FF;

    /// Whether every bit of `flag` is set in the field.
    pub open spec fn grants(self, flag: u16) -> bool {
        self.0 & flag == flag
    }

    /// No right.
    pub fn empty() -> (r: Self)
        ensures
            r.0 == 0,
    {
        Self(0)
    }

    /// Every right.
    pub fn all() -> (r: Self)
        ensures
            r.0 == Self::ALL,
    {
        Self(Self::ALL)
    }

    /// The standard game distribution rights.
    pub fn game_standard() -> (r: Self)
        ensures
            r.0 == Self::GAME_STANDARD,
    {
        Self(Self::GAME_STANDARD)
    }

    /// Whether every bit of `flag` is granted.
    pub fn has(self, flag: u16) -> (b: bool)
        ensures
            b == self.grants(flag),
    {
        (self.0 & flag) == flag
    }

    /// The rights with the bits of `flag` added.
    pub fn with(self, flag: u16) -> (r: Self)
        ensures
            r.0 == self.0 | flag,
    {
        Self(self.0 | flag)
    }

    /// The rights with the bits of `flag` removed.
    pub fn without(self, flag: u16) -> (r: Self)
        ensures
            r.0 == self.0 & !flag,
    {
        Self(self.0 & !flag)
    }
}

/// A right that was added is granted, and adding it takes no other right
/// away.
pub proof fn lemma_rights_with(rights: UsageRights, flag: u16, other: u16)
    ensures
        UsageRights(rights.0 | flag).grants(flag),
        rights.grants(other) ==> UsageRights(rights.0 | flag).grants(other),
{
    let r = rights.0;
    assert((r | flag) & flag == flag) by (bit_vector);
    assert(r & other == other ==> (r | flag) & other == other) by (bit_vector);
}

/// A right that was removed is no longer granted, unless it names no bit at
/// all; rights that share no bit with it stay as they were.
pub proof fn lemma_rights_without(rights: UsageRights, flag: u16, other: u16)
    ensures
        flag != 0 ==> !UsageRights(rights.0 & !flag).grants(flag),
        other & flag == 0 ==> (UsageRights(rights.0 & !flag).grants(other) <==> rights.grants(
            other,
        )),
{
    let r = rights.0;
    assert(flag != 0 ==> (r & !flag) & flag != flag) by (bit_vector);
    assert(other & flag == 0 ==> ((r & !flag) & other == other <==> r & other == other))
        by (bit_vector);
}

/// The standard game rights are exactly commercial use, modification,
/// embedding and game bundling.
pub proof fn lemma_game_standard_rights()
    ensures
        UsageRights::GAME_STANDARD == UsageRights::COMMERCIAL | UsageRights::EMBEDDING
            | UsageRights::GAME_BUNDLE | UsageRights::MODIFICATION,
        UsageRights(UsageRights::GAME_STANDARD).grants(UsageRights::COMMERCIAL),
        UsageRights(UsageRights::GAME_STANDARD).grants(UsageRights::EMBEDDING),
        UsageRights(UsageRights::GAME_STANDARD).grants(UsageRights::GAME_BUNDLE),
        UsageRights(UsageRights::GAME_STANDARD).grants(UsageRights::MODIFICATION),
        !UsageRights(UsageRights::GAME_STANDARD).grants(UsageRights::REDISTRIBUTION),
{
    assert(0x010Bu16 == 0x01u16 | 0x08u16 | 0x100u16 | 0x02u16) by (bit_vector);
    assert(0x010Bu16 & 0x01u16 == 0x01u16) by (bit_vector);
    assert(0x010Bu16 & 0x08u16 == 0x08u16) by (bit_vector);
    assert(0x010Bu16 & 0x100u16 == 0x100u16) by (bit_vector);
    assert(0x010Bu16 & 0x02u16 == 0x02u16) by (bit_vector);
    assert(0x010Bu16 & 0x04u16 != 0x04u16) by (bit_vector);
}

/// License type identifier.
#[derive(Debug, Clone, Copy, PartialEq, Eq, Structural)]
pub enum LicenseType {
    OpenSource,
    Commercial,
    Trial,
    Internal,
    /// Typefaces generated from parameters alone: free by construction.
    Parametric,
}

impl LicenseType {
    /// The byte that stands for the type in a record.
    pub open spec fn code(self) -> u8 {
        match self {
            LicenseType::OpenSource => 0,
            LicenseType::Commercial => 1,
            LicenseType::Trial => 2,
            LicenseType::Internal => 3,
            LicenseType::Parametric => 4,
        }
    }

    /// The type a byte stands for, if any.
    pub open spec fn of_code(v: u8) -> Option<Self> {
        if v == 0 {
            Some(LicenseType::OpenSource)
        } else if v == 1 {
            Some(LicenseType::Commercial)
        } else if v == 2 {
            Some(LicenseType::Trial)
        } else if v == 3 {
            Some(LicenseType::Internal)
        } else if v == 4 {
            Some(LicenseType::Parametric)
        } else {
            None
        }
    }

    /// Reads a type from its byte; bytes above 4 stand for no type.
    pub fn from_u8(v: u8) -> (r: Option<Self>)
        ensures
            r == Self::of_code(v),
    {
        match v {
            0 => Some(LicenseType::OpenSource),
            1 => Some(LicenseType::Commercial),
            2 => Some(LicenseType::Trial),
            3 => Some(LicenseType::Internal),
            4 => Some(LicenseType::Parametric),
            _ => None,
        }
    }

    /// The byte that stands for the type.
    pub fn to_u8(self) -> (v: u8)
        ensures
            v == self.code(),
    {
        match self {
            LicenseType::OpenSource => 0,
            LicenseType::Commercial => 1,
            LicenseType::Trial => 2,
            LicenseType::Internal => 3,
            LicenseType::Parametric => 4,
        }
    }
}

/// Every type is read back from its own byte, and a byte that stands for a
/// type is that type's byte.
pub proof fn lemma_license_type_code(t: LicenseType, v: u8)
    ensures
        LicenseType::of_code(t.code()) == Some(t),
        LicenseType::of_code(v) == Some(t) ==> t.code() == v,
        LicenseType::of_code(v) is Some <==> v <= 4,
{
}

/// Platform restriction bit field.
#[derive(Debug, Clone, Copy, PartialEq, Eq, Structural)]
pub struct PlatformRestriction(pub u8);

impl PlatformRestriction {
    pub const PC: u8 = 0x01;

    pub const CONSOLE: u8 = 0x02;

    pub const MOBILE: u8 = 0x04;

    pub const WEB: u8 = 0x08;

    pub const VR: u8 = 0x10;

    pub const ARCADE: u8 = 0x20;

    /// All six platforms.
    pub const ALL: u8 = 0x3F;

    /// Whether every bit of `flag` is set in the field.
    pub open spec fn allows(self, flag: u8) -> bool {
        self.0 & flag == flag
    }

    /// Every platform.
    pub fn all() -> (r: Self)
        ensures
            r.0 == Self::ALL,
    {
        Self(Self::ALL)
    }

    /// No platform.
    pub fn empty() -> (r: Self)
        ensures
            r.0 == 0,
    {
        Self(0)
    }

    /// Whether every bit of `flag` is allowed.
    pub fn has(self, flag: u8) -> (b: bool)
        ensures
            b == self.allows(flag),
    {
        (self.0 & flag) == flag
    }

    /// The platforms with the bits of `flag` added.
    pub fn with(self, flag: u8) -> (r: Self)
        ensures
            r.0 == self.0 | flag,
    {
        Self(self.0 | flag)
    }
}

/// A platform that was added is allowed, and adding it takes no other
/// platform away.
pub proof fn lemma_platforms_with(platforms: PlatformRestriction, flag: u8, other: u8)
    ensures
        PlatformRestriction(platforms.0 | flag).allows(flag),
        platforms.allows(other) ==> PlatformRestriction(platforms.0 | flag).allows(other),
{
    let p = platforms.0;
    assert((p | flag) & flag == flag) by (bit_vector);
    assert(p & other == other ==> (p | flag) & other == other) by (bit_vector);
}

/// Font license metadata, 32 bytes on the wire.
#[derive(Debug, Clone, Copy, PartialEq, Eq)]
pub struct FontLicense {
    /// FNV-1a of the fields that decide validation (see `hash_key`).
    pub content_hash: u64,
    /// FNV-1a of the encoded parameter block the license was issued for.
    pub params_hash: u64,
    /// Game title (0 = unrestricted).
    pub title_id: u32,
    /// Expiration in epoch seconds (0 = permanent).
    pub expires_epoch: u32,
    /// Usage rights.
    pub rights: UsageRights,
    /// Maximum seat count (0 = unlimited).
    pub max_seats: u16,
    /// License type.
    pub license_type: LicenseType,
    /// Platform restrictions.
    pub platforms: PlatformRestriction,
    /// Reserved; carried through unchanged.
    pub _reserved: [u8; 2],
}

impl FontLicense {
    /// Size of the record in bytes.
    pub const SIZE: usize = 32;

    /// The record: the fields in declaration order, integers little-endian,
    /// with no padding.
    ///
    /// | offset | width | field           |
    /// |--------|-------|-----------------|
    /// | 0      | 8     | `content_hash`  |
    /// | 8      | 8     | `params_hash`   |
    /// | 16     | 4     | `title_id`      |
    /// | 20     | 4     | `expires_epoch` |
    /// | 24     | 2     | `rights`        |
    /// | 26     | 2     | `max_seats`     |
    /// | 28     | 1     | `license_type`  |
    /// | 29     | 1     | `platforms`     |
    /// | 30     | 2     | `_reserved`     |
    pub open spec fn wire_bytes(self) -> Seq<u8> {
        le_bytes(self.content_hash as nat, 8) + le_bytes(self.params_hash as nat, 8) + le_bytes(
            self.title_id as nat,
            4,
        ) + le_bytes(self.expires_epoch as nat, 4) + le_bytes(self.rights.0 as nat, 2) + le_bytes(
            self.max_seats as nat,
            2,
        ) + seq![self.license_type.code(), self.platforms.0] + self._reserved@
    }

    /// The 20 bytes the content hash is taken over: type, platforms, rights,
    /// title, seat limit, expiry, and the six low-order bytes of the
    /// parameter hash.
    pub open spec fn hash_key(self) -> Seq<u8> {
        seq![self.license_type.code(), self.platforms.0] + le_bytes(self.rights.0 as nat, 2)
            + le_bytes(self.title_id as nat, 4) + le_bytes(self.max_seats as nat, 2) + le_bytes(
            self.expires_epoch as nat,
            4,
        ) + le_bytes(self.params_hash as nat, 6)
    }

    /// The content hash the other fields call for.
    pub open spec fn digest(self) -> u64 {
        fnv1a_hash(self.hash_key())
    }

    /// The reading of a 32-byte record: the one license that is written as
    /// `data`, which exists unless byte 28 stands for no license type.
    pub open spec fn decodes_to(data: Seq<u8>, result: Option<FontLicense>) -> bool {
        match result {
            Some(license) => license.wire_bytes() == data,
            None => LicenseType::of_code(data[28]) is None,
        }
    }

    /// A free license for a parametric typeface: all rights, all platforms,
    /// no title, seat limit or expiry.
    pub fn parametric_free(params_encoded: &[u8; 40]) -> (license: Self)
        ensures
            license.params_hash == fnv1a_hash(params_encoded@),
            license.title_id == 0,
            license.expires_epoch == 0,
            license.rights.0 == UsageRights::ALL,
            license.max_seats == 0,
            license.license_type == LicenseType::Parametric,
            license.platforms.0 == PlatformRestriction::ALL,
            license._reserved@ == seq![0u8, 0u8],
            license.content_hash == license.digest(),
    {
        let params_hash = fnv1a(params_encoded);
        let mut license = FontLicense {
            content_hash: 0,
            params_hash,
            title_id: 0,
            expires_epoch: 0,
            rights: UsageRights::all(),
            max_seats: 0,
            license_type: LicenseType::Parametric,
            platforms: PlatformRestriction::all(),
            _reserved: [0u8; 2],
        };
        assert(license._reserved@ =~= seq![0u8, 0u8]);
        let content_hash = license.compute_hash();
        license.content_hash = content_hash;
        license
    }

    /// A commercial license for one game title on the given platforms, with
    /// the standard game rights and no seat limit or expiry.
    pub fn for_game_title(
        params_encoded: &[u8; 40],
        title_id: u32,
        platforms: PlatformRestriction,
    ) -> (license: Self)
        ensures
            license.params_hash == fnv1a_hash(params_encoded@),
            license.title_id == title_id,
            license.expires_epoch == 0,
            license.rights.0 == UsageRights::GAME_STANDARD,
            license.max_seats == 0,
            license.license_type == LicenseType::Commercial,
            license.platforms == platforms,
            license._reserved@ == seq![0u8, 0u8],
            license.content_hash == license.digest(),
    {
        let params_hash = fnv1a(params_encoded);
        let mut license = FontLicense {
            content_hash: 0,
            params_hash,
            title_id,
            expires_epoch: 0,
            rights: UsageRights::game_standard(),
            max_seats: 0,
            license_type: LicenseType::Commercial,
            platforms,
            _reserved: [0u8; 2],
        };
        assert(license._reserved@ =~= seq![0u8, 0u8]);
        let content_hash = license.compute_hash();
        license.content_hash = content_hash;
        license
    }

    /// Writes the license as its 32-byte record.
    pub fn encode(&self) -> (buf: [u8; 32])
        ensures
            buf@ == self.wire_bytes(),
    {
        let mut buf = [0u8; 32];
        proof {
            lemma_le_bytes_len(self.content_hash as nat, 8);
            lemma_le_bytes_len(self.params_hash as nat, 8);
            lemma_le_bytes_len(self.title_id as nat, 4);
            lemma_le_bytes_len(self.expires_epoch as nat, 4);
            lemma_le_bytes_len(self.rights.0 as nat, 2);
            lemma_le_bytes_len(self.max_seats as nat, 2);
        }
        write_le(&mut buf, 0, self.content_hash, 8);
        write_le(&mut buf, 8, self.params_hash, 8);
        write_le(&mut buf, 16, self.title_id as u64, 4);
        write_le(&mut buf, 20, self.expires_epoch as u64, 4);
        write_le(&mut buf, 24, self.rights.0 as u64, 2);
        write_le(&mut buf, 26, self.max_seats as u64, 2);
        buf[28] = self.license_type.to_u8();
        buf[29] = self.platforms.0;
        buf[30] = self._reserved[0];
        buf[31] = self._reserved[1];
        assert(buf@ =~= self.wire_bytes());
        buf
    }

    /// Reads a license from its 32-byte record. Fails only where byte 28
    /// stands for no license type.
    pub fn decode(data: &[u8; 32]) -> (result: Option<Self>)
        ensures
            Self::decodes_to(data@, result),
    {
        let content_hash = read_le(data, 0, 8);
        let params_hash = read_le(data, 8, 8);
        let title_id = read_le(data, 16, 4);
        let expires_epoch = read_le(data, 20, 4);
        let rights = read_le(data, 24, 2);
        let max_seats = read_le(data, 26, 2);
        let license_type = match LicenseType::from_u8(data[28]) {
            Some(t) => t,
            None => {
                return None;
            },
        };
        proof {
            lemma_radix_pow_values();
            lemma_le_bytes_of_value(data@.subrange(0, 8));
            lemma_le_bytes_of_value(data@.subrange(8, 16));
            lemma_le_bytes_of_value(data@.subrange(16, 20));
            lemma_le_bytes_of_value(data@.subrange(20, 24));
            lemma_le_bytes_of_value(data@.subrange(24, 26));
            lemma_le_bytes_of_value(data@.subrange(26, 28));
        }
        let license = FontLicense {
            content_hash,
            params_hash,
            title_id: title_id as u32,
            expires_epoch: expires_epoch as u32,
            rights: UsageRights(rights as u16),
            max_seats: max_seats as u16,
            license_type,
            platforms: PlatformRestriction(data[29]),
            _reserved: [data[30], data[31]],
        };
        assert(license.wire_bytes() =~= data@);
        Some(license)
    }

    /// Computes the content hash the other fields call for.
    pub fn compute_hash(&self) -> (h: u64)
        ensures
            h == self.digest(),
    {
        let mut key = [0u8; 20];
        proof {
            lemma_le_bytes_len(self.rights.0 as nat, 2);
            lemma_le_bytes_len(self.title_id as nat, 4);
            lemma_le_bytes_len(self.max_seats as nat, 2);
            lemma_le_bytes_len(self.expires_epoch as nat, 4);
            lemma_le_bytes_len(self.params_hash as nat, 6);
        }
        key[0] = self.license_type.to_u8();
        key[1] = self.platforms.0;
        write_le(&mut key, 2, self.rights.0 as u64, 2);
        write_le(&mut key, 4, self.title_id as u64, 4);
        write_le(&mut key, 8, self.max_seats as u64, 2);
        write_le(&mut key, 10, self.expires_epoch as u64, 4);
        write_le(&mut key, 14, self.params_hash, 6);
        assert(key@ =~= self.hash_key());
        fnv1a(&key)
    }
}

/// A record is 32 bytes long.
pub proof fn lemma_wire_bytes_len(license: FontLicense)
    ensures
        license.wire_bytes().len() == FontLicense::SIZE,
{
    lemma_le_bytes_len(license.content_hash as nat, 8);
    lemma_le_bytes_len(license.params_hash as nat, 8);
    lemma_le_bytes_len(license.title_id as nat, 4);
    lemma_le_bytes_len(license.expires_epoch as nat, 4);
    lemma_le_bytes_len(license.rights.0 as nat, 2);
    lemma_le_bytes_len(license.max_seats as nat, 2);
}

/// Each field can be read off the record at its offset.
pub proof fn lemma_wire_bytes_fields(license: FontLicense)
    ensures
        le_value(license.wire_bytes().subrange(0, 8)) == license.content_hash,
        le_value(license.wire_bytes().subrange(8, 16)) == license.params_hash,
        le_value(license.wire_bytes().subrange(16, 20)) == license.title_id,
        le_value(license.wire_bytes().subrange(20, 24)) == license.expires_epoch,
        le_value(license.wire_bytes().subrange(24, 26)) == license.rights.0,
        le_value(license.wire_bytes().subrange(26, 28)) == license.max_seats,
        license.wire_bytes()[28] == license.license_type.code(),
        license.wire_bytes()[29] == license.platforms.0,
        license.wire_bytes().subrange(30, 32) == license._reserved@,
{
    let w = license.wire_bytes();
    lemma_wire_bytes_len(license);
    lemma_le_bytes_len(license.content_hash as nat, 8);
    lemma_le_bytes_len(license.params_hash as nat, 8);
    lemma_le_bytes_len(license.title_id as nat, 4);
    lemma_le_bytes_len(license.expires_epoch as nat, 4);
    lemma_le_bytes_len(license.rights.0 as nat, 2);
    lemma_le_bytes_len(license.max_seats as nat, 2);
    lemma_radix_pow_values();
    lemma_le_value_of_bytes(license.content_hash as nat, 8);
    lemma_le_value_of_bytes(license.params_hash as nat, 8);
    lemma_le_value_of_bytes(license.title_id as nat, 4);
    lemma_le_value_of_bytes(license.expires_epoch as nat, 4);
    lemma_le_value_of_bytes(license.rights.0 as nat, 2);
    lemma_le_value_of_bytes(license.max_seats as nat, 2);
    assert(w.subrange(0, 8) =~= le_bytes(license.content_hash as nat, 8));
    assert(w.subrange(8, 16) =~= le_bytes(license.params_hash as nat, 8));
    assert(w.subrange(16, 20) =~= le_bytes(license.title_id as nat, 4));
    assert(w.subrange(20, 24) =~= le_bytes(license.expires_epoch as nat, 4));
    assert(w.subrange(24, 26) =~= le_bytes(license.rights.0 as nat, 2));
    assert(w.subrange(26, 28) =~= le_bytes(license.max_seats as nat, 2));
    assert(w.subrange(30, 32) =~= license._reserved@);
}

/// Two licenses with the same record are the same license.
pub proof fn lemma_wire_bytes_injective(a: FontLicense, b: FontLicense)
    requires
        a.wire_bytes() == b.wire_bytes(),
    ensures
        a == b,
{
    lemma_wire_bytes_fields(a);
    lemma_wire_bytes_fields(b);
    lemma_license_type_code(a.license_type, b.license_type.code());
    assert(a._reserved =~= b._reserved);
    assert(a.rights == b.rights);
    assert(a.platforms == b.platforms);
}

/// Reading the record of a license gives that license back: whatever
/// `decode` returns on what `encode` wrote is the license that was written.
pub proof fn lemma_decode_encode(license: FontLicense, result: Option<FontLicense>)
    requires
        FontLicense::decodes_to(license.wire_bytes(), result),
    ensures
        result == Some(license),
{
    lemma_wire_bytes_fields(license);
    lemma_license_type_code(license.license_type, 0);
    match result {
        Some(other) => {
            lemma_wire_bytes_injective(other, license);
        },
        None => {},
    }
}

/// Writing a license that was read from a record gives the record back, and
/// every 32-byte record whose byte 28 is at most 4 is read as some license.
pub proof fn lemma_encode_decode(data: Seq<u8>, result: Option<FontLicense>)
    requires
        data.len() == FontLicense::SIZE,
        FontLicense::decodes_to(data, result),
    ensures
        result is Some <==> data[28] <= 4,
        result is Some ==> result.unwrap().wire_bytes() == data,
{
    match result {
        Some(license) => {
            lemma_wire_bytes_fields(license);
            lemma_license_type_code(license.license_type, data[28]);
        },
        None => {
            lemma_license_type_code(LicenseType::OpenSource, data[28]);
        },
    }
}

/// Outcome of a license check.
#[derive(Debug, Clone, Copy, PartialEq, Eq, Structural)]
pub enum ValidationResult {
    Valid,
    Expired,
    PlatformDenied,
    RightDenied,
    TitleMismatch,
    SeatLimitExceeded,
    ParamsMismatch,
}

/// Stateless license validator.
pub struct LicenseValidator;

impl LicenseValidator {
    /// The outcome of checking `license` against a use: the first check that
    /// fails, in the order expiry, platform, right, title, seats, parameter
    /// hash. A parametric license is checked against the parameter hash
    /// alone.
    pub open spec fn verdict(
        license: FontLicense,
        current_epoch: u32,
        platform: u8,
        required_right: u16,
        title_id: u32,
        current_seats: u16,
        params_hash: u64,
    ) -> ValidationResult {
        if license.license_type == LicenseType::Parametric {
            if params_hash == license.params_hash {
                ValidationResult::Valid
            } else {
                ValidationResult::ParamsMismatch
            }
        } else if license.expires_epoch > 0 && current_epoch > license.expires_epoch {
            ValidationResult::Expired
        } else if !license.platforms.allows(platform) {
            ValidationResult::PlatformDenied
        } else if !license.rights.grants(required_right) {
            ValidationResult::RightDenied
        } else if license.title_id != 0 && license.title_id != title_id {
            ValidationResult::TitleMismatch
        } else if license.max_seats > 0 && current_seats > license.max_seats {
            ValidationResult::SeatLimitExceeded
        } else if params_hash != license.params_hash {
            ValidationResult::ParamsMismatch
        } else {
            ValidationResult::Valid
        }
    }

    /// Whether the license is the free license of a parametric typeface.
    pub open spec fn parametric_free(license: FontLicense) -> bool {
        &&& license.license_type == LicenseType::Parametric
        &&& license.rights.0 == UsageRights::ALL
        &&& license.platforms.0 == PlatformRestriction::ALL
    }

    /// Checks a license against the use that is about to be made of the
    /// typeface.
    pub fn validate(
        license: &FontLicense,
        current_epoch: u32,
        platform: u8,
        required_right: u16,
        title_id: u32,
        current_seats: u16,
        params_encoded: &[u8; 40],
    ) -> (result: ValidationResult)
        ensures
            result == Self::verdict(
                *license,
                current_epoch,
                platform,
                required_right,
                title_id,
                current_seats,
                fnv1a_hash(params_encoded@),
            ),
    {
        if license.license_type == LicenseType::Parametric {
            let params_hash = fnv1a(params_encoded);
            if params_hash != license.params_hash {
                return ValidationResult::ParamsMismatch;
            }
            return ValidationResult::Valid;
        }
        if license.expires_epoch > 0 && current_epoch > license.expires_epoch {
            return ValidationResult::Expired;
        }
        if !license.platforms.has(platform) {
            return ValidationResult::PlatformDenied;
        }
        if !license.rights.has(required_right) {
            return ValidationResult::RightDenied;
        }
        if license.title_id != 0 && license.title_id != title_id {
            return ValidationResult::TitleMismatch;
        }
        if license.max_seats > 0 && current_seats > license.max_seats {
            return ValidationResult::SeatLimitExceeded;
        }
        let params_hash = fnv1a(params_encoded);
        if params_hash != license.params_hash {
            return ValidationResult::ParamsMismatch;
        }
        ValidationResult::Valid
    }

    /// Checks a license for commercial distribution inside a game: the
    /// rights asked for are commercial use and game bundling, and seats are
    /// not counted.
    pub fn validate_commercial_game(
        license: &FontLicense,
        current_epoch: u32,
        platform: u8,
        title_id: u32,
        params_encoded: &[u8; 40],
    ) -> (result: ValidationResult)
        ensures
            result == Self::verdict(
                *license,
                current_epoch,
                platform,
                0x0101,
                title_id,
                0,
                fnv1a_hash(params_encoded@),
            ),
    {
        proof {
            assert(0x01u16 | 0x100u16 == 0x0101u16) by (bit_vector);
        }
        Self::validate(
            license,
            current_epoch,
            platform,
            UsageRights::COMMERCIAL | UsageRights::GAME_BUNDLE,
            title_id,
            0,
            params_encoded,
        )
    }

    /// Whether the license is the free license of a parametric typeface:
    /// parametric type, all rights, all platforms.
    pub fn is_parametric_free(license: &FontLicense) -> (b: bool)
        ensures
            b == Self::parametric_free(*license),
    {
        license.license_type == LicenseType::Parametric && license.rights.0 == UsageRights::ALL
            && license.platforms.0 == PlatformRestriction::ALL
    }
}

/// A license is valid for a use only if it was issued for the parameter
/// block in use.
pub proof fn lemma_valid_binds_params(
    license: FontLicense,
    current_epoch: u32,
    platform: u8,
    required_right: u16,
    title_id: u32,
    current_seats: u16,
    params_hash: u64,
)
    requires
        LicenseValidator::verdict(
            license,
            current_epoch,
            platform,
            required_right,
            title_id,
            current_seats,
            params_hash,
        ) == ValidationResult::Valid,
    ensures
        params_hash == license.params_hash,
{
}

/// A parametric license is valid for every use of the parameter block it
/// was issued for, whatever the date, platform, right, title or seat count.
pub proof fn lemma_parametric_always_valid(
    license: FontLicense,
    current_epoch: u32,
    platform: u8,
    required_right: u16,
    title_id: u32,
    current_seats: u16,
)
    requires
        license.license_type == LicenseType::Parametric,
    ensures
        LicenseValidator::verdict(
            license,
            current_epoch,
            platform,
            required_right,
            title_id,
            current_seats,
            license.params_hash,
        ) == ValidationResult::Valid,
{
}

} // verus!
