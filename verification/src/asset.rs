use vstd::prelude::*;
use crate::principal::{Principal, anonymous_id};
use crate::settings::{Settings, SettingsV, Privacy};
use crate::nft::{Nft, NftV};
use crate::chunk::{Chunk, ChunkV, chunks_view, clone_chunks};
use crate::text::{opt_text, clone_opt_string};

verus! {

/// What a node in an owner's tree is: a folder, a file with uploaded
/// content, or a reference to a token held by an external ledger.
pub enum AssetType {
    Folder,
    File,
    NFT(Nft),
}

#[verifier::ext_equal]
pub ghost enum AssetTypeV {
    Folder,
    File,
    NFT(NftV),
}

impl View for AssetType {
    type V = AssetTypeV;

    open spec fn view(&self) -> AssetTypeV {
        match self {
            AssetType::Folder => AssetTypeV::Folder,
            AssetType::File => AssetTypeV::File,
            AssetType::NFT(n) => AssetTypeV::NFT(n@),
        }
    }
}

impl AssetType {
    /// Whether this kind is `File`.
    pub fn is_file(&self) -> (r: bool)
        ensures
            r == (self@ is File),
    {
        match self {
            AssetType::File => true,
            _ => false,
        }
    }

    /// Whether this kind is `Folder`.
    pub fn is_folder(&self) -> (r: bool)
        ensures
            r == (self@ is Folder),
    {
        match self {
            AssetType::Folder => true,
            _ => false,
        }
    }

    /// An owned copy with the same contents.
    pub fn duplicate(&self) -> (r: AssetType)
        ensures
            r@ == self@,
    {
        match self {
            AssetType::Folder => AssetType::Folder,
            AssetType::File => AssetType::File,
            AssetType::NFT(n) => AssetType::NFT(n.duplicate()),
        }
    }
}

/// A node in an owner's hierarchical tree.
pub struct Asset {
    pub id: u32,
    pub user_id: Principal,
    pub parent_id: Option<u32>,
    pub asset_type: AssetType,
    pub name: String,
    pub is_favorite: bool,
    pub size: u32,
    pub extension: String,
    pub mime_type: String,
    pub created_at: u64,
    pub updated_at: u64,
    pub chunks: Vec<Chunk>,
    pub settings: Settings,
}

#[verifier::ext_equal]
pub ghost struct AssetV {
    pub id: u32,
    pub user_id: Seq<u8>,
    pub parent_id: Option<u32>,
    pub asset_type: AssetTypeV,
    pub name: Seq<char>,
    pub is_favorite: bool,
    pub size: u32,
    pub extension: Seq<char>,
    pub mime_type: Seq<char>,
    pub created_at: u64,
    pub updated_at: u64,
    pub chunks: Seq<ChunkV>,
    pub settings: SettingsV,
}

impl View for Asset {
    type V = AssetV;

    open spec fn view(&self) -> AssetV {
        AssetV {
            id: self.id,
            user_id: self.user_id@,
            parent_id: self.parent_id,
            asset_type: self.asset_type@,
            name: self.name@,
            is_favorite: self.is_favorite,
            size: self.size,
            extension: self.extension@,
            mime_type: self.mime_type@,
            created_at: self.created_at,
            updated_at: self.updated_at,
            chunks: chunks_view(self.chunks@),
            settings: self.settings@,
        }
    }
}

impl Asset {
    /// An owned copy with the same contents.
    pub fn duplicate(&self) -> (r: Asset)
        ensures
            r@ == self@,
    {
        Asset {
            id: self.id,
            user_id: self.user_id.duplicate(),
            parent_id: self.parent_id,
            asset_type: self.asset_type.duplicate(),
            name: self.name.clone(),
            is_favorite: self.is_favorite,
            size: self.size,
            extension: self.extension.clone(),
            mime_type: self.mime_type.clone(),
            created_at: self.created_at,
            updated_at: self.updated_at,
            chunks: clone_chunks(&self.chunks),
            settings: self.settings.duplicate(),
        }
    }
}

impl Default for Asset {
    /// A root folder owned by nobody, with empty names and no content.
    fn default() -> (r: Asset)
        ensures
            r@ == (AssetV {
                id: 0,
                user_id: anonymous_id(),
                parent_id: None,
                asset_type: AssetTypeV::Folder,
                name: Seq::<char>::empty(),
                is_favorite: false,
                size: 0,
                extension: Seq::<char>::empty(),
                mime_type: Seq::<char>::empty(),
                created_at: 0,
                updated_at: 0,
                chunks: Seq::<ChunkV>::empty(),
                settings: SettingsV { privacy: Privacy::Public, url: None },
            }),
    {
        let r = Asset {
            id: 0,
            user_id: Principal::anonymous(),
            parent_id: None,
            asset_type: AssetType::Folder,
            name: String::new(),
            is_favorite: false,
            size: 0,
            extension: String::new(),
            mime_type: String::new(),
            created_at: 0,
            updated_at: 0,
            chunks: Vec::new(),
            settings: Settings::default(),
        };
        proof {
            assert(chunks_view(r.chunks@) =~= Seq::<ChunkV>::empty());
        }
        r
    }
}

/// A draft asset handed to the metadata store by its owner. When `id` is
/// present and resolves to an asset the owner already holds, the stored
/// asset is updated in place; otherwise a fresh asset is created.
pub struct PostAsset {
    pub id: Option<u32>,
    pub user_id: Principal,
    pub parent_id: Option<u32>,
    pub asset_type: AssetType,
    pub name: String,
    pub size: u32,
    pub extension: String,
    pub mime_type: String,
    pub chunks: Vec<Chunk>,
    pub settings: Settings,
}

#[verifier::ext_equal]
pub ghost struct PostAssetV {
    pub id: Option<u32>,
    pub user_id: Seq<u8>,
    pub parent_id: Option<u32>,
    pub asset_type: AssetTypeV,
    pub name: Seq<char>,
    pub size: u32,
    pub extension: Seq<char>,
    pub mime_type: Seq<char>,
    pub chunks: Seq<ChunkV>,
    pub settings: SettingsV,
}

impl View for PostAsset {
    type V = PostAssetV;

    open spec fn view(&self) -> PostAssetV {
        PostAssetV {
            id: self.id,
            user_id: self.user_id@,
            parent_id: self.parent_id,
            asset_type: self.asset_type@,
            name: self.name@,
            size: self.size,
            extension: self.extension@,
            mime_type: self.mime_type@,
            chunks: chunks_view(self.chunks@),
            settings: self.settings@,
        }
    }
}

/// A patch for one asset: `parent_id` is overwritten unconditionally, the
/// optional fields only where present.
pub struct EditAsset {
    pub id: u32,
    pub parent_id: Option<u32>,
    pub is_favorite: Option<bool>,
    pub name: Option<String>,
    pub extension: Option<String>,
}

#[verifier::ext_equal]
pub ghost struct EditAssetV {
    pub id: u32,
    pub parent_id: Option<u32>,
    pub is_favorite: Option<bool>,
    pub name: Option<Seq<char>>,
    pub extension: Option<Seq<char>>,
}

impl View for EditAsset {
    type V = EditAssetV;

    open spec fn view(&self) -> EditAssetV {
        EditAssetV {
            id: self.id,
            parent_id: self.parent_id,
            is_favorite: self.is_favorite,
            name: opt_text(self.name),
            extension: opt_text(self.extension),
        }
    }
}

impl EditAsset {
    /// An owned copy with the same contents.
    pub fn duplicate(&self) -> (r: EditAsset)
        ensures
            r@ == self@,
    {
        EditAsset {
            id: self.id,
            parent_id: self.parent_id,
            is_favorite: self.is_favorite,
            name: clone_opt_string(&self.name),
            extension: clone_opt_string(&self.extension),
        }
    }
}

/// A request to reparent one asset.
#[derive(Clone, Copy, Debug, PartialEq, Eq, Structural)]
pub struct MoveAsset {
    pub id: u32,
    pub parent_id: Option<u32>,
}

/// An identity granted access to one of the owner's assets.
pub struct SharedWith {
    pub principal: Principal,
    pub username: Option<String>,
}

#[verifier::ext_equal]
pub ghost struct SharedWithV {
    pub principal: Seq<u8>,
    pub username: Option<Seq<char>>,
}

impl View for SharedWith {
    type V = SharedWithV;

    open spec fn view(&self) -> SharedWithV {
        SharedWithV { principal: self.principal@, username: opt_text(self.username) }
    }
}

} // verus!
