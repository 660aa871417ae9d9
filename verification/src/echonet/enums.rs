use vstd::prelude::*;

verus! {

/// A property class of an ECHONET object: a set of property codes (EPCs)
/// together with an injective encoding into single bytes.
///
/// An `EchonetPacket` is parameterized by a property class so that a packet
/// can only hold properties that its remote object class understands.
pub trait EchonetProperty: Sized + Copy {
    /// The one-byte EPC that stands for this property on the wire.
    spec fn code(self) -> u8;

    /// The property, if any, that the byte `c` stands for.
    spec fn from_code(c: u8) -> Option<Self>;

    /// Decoding the code of a property gives that property back.
    proof fn lemma_code_from_code(self)
        ensures
            Self::from_code(self.code()) == Some(self),
    ;

    /// A decoded property carries exactly the byte it was decoded from.
    proof fn lemma_from_code_code(c: u8)
        ensures
            Self::from_code(c) matches Some(p) ==> p.code() == c,
    ;

    fn to_u8(self) -> (r: u8)
        ensures
            r == self.code(),
    ;

    fn from_u8(c: u8) -> (r: Option<Self>)
        ensures
            r == Self::from_code(c),
    ;
}

/// The two ECHONET object identifiers this driver speaks for and to.
#[derive(Debug, PartialEq, Eq, Structural, Copy, Clone)]
pub enum EchonetObject {
    SmartMeter,
    HemsController,
}

impl EchonetObject {
    /// The three-byte object identifier on the wire.
    pub open spec fn spec_bytes(self) -> Seq<u8> {
        match self {
            EchonetObject::SmartMeter => seq![0x02u8, 0x88u8, 0x01u8],
            EchonetObject::HemsController => seq![0x05u8, 0xFFu8, 0x01u8],
        }
    }

    /// The object, if any, that three bytes stand for.
    pub open spec fn spec_from_bytes(b: Seq<u8>) -> Option<EchonetObject> {
        if b == seq![0x02u8, 0x88u8, 0x01u8] {
            Some(EchonetObject::SmartMeter)
        } else if b == seq![0x05u8, 0xFFu8, 0x01u8] {
            Some(EchonetObject::HemsController)
        } else {
            None
        }
    }

    pub fn to_bytes(self) -> (r: [u8; 3])
        ensures
            r@ == self.spec_bytes(),
    {
        match self {
            EchonetObject::SmartMeter => {
                let r: [u8; 3] = [0x02, 0x88, 0x01];
                assert(r@ =~= self.spec_bytes());
                r
            },
            EchonetObject::HemsController => {
                let r: [u8; 3] = [0x05, 0xFF, 0x01];
                assert(r@ =~= self.spec_bytes());
                r
            },
        }
    }

    pub fn from_bytes(b: [u8; 3]) -> (r: Option<EchonetObject>)
        ensures
            r == EchonetObject::spec_from_bytes(b@),
    {
        if b[0] == 0x02 && b[1] == 0x88 && b[2] == 0x01 {
            proof {
                assert(b@ =~= seq![0x02u8, 0x88u8, 0x01u8]);
            }
            Some(EchonetObject::SmartMeter)
        } else if b[0] == 0x05 && b[1] == 0xFF && b[2] == 0x01 {
            proof {
                assert(b@ =~= seq![0x05u8, 0xFFu8, 0x01u8]);
            }
            Some(EchonetObject::HemsController)
        } else {
            proof {
                assert(b@.len() == 3);
                if b@ == seq![0x02u8, 0x88u8, 0x01u8] {
                    assert(b@[0] == 0x02 && b@[1] == 0x88 && b@[2] == 0x01);
                }
                if b@ == seq![0x05u8, 0xFFu8, 0x01u8] {
                    assert(b@[0] == 0x05 && b@[1] == 0xFF && b@[2] == 0x01);
                }
            }
            None
        }
    }
}

/// The ECHONET service codes (ESV) this driver recognizes.
#[derive(Debug, PartialEq, Eq, Structural, Copy, Clone)]
pub enum EchonetService {
    ReadPropertyFailResponse,
    ReadPropertyRequest,
    ReadPropertyResponse,
    PropertyNotification,
    PropertyNotificationResponseRequired,
    PropertyNotificationResponse,
}

impl EchonetService {
    /// The one-byte service code on the wire.
    pub open spec fn spec_code(self) -> u8 {
        match self {
            EchonetService::ReadPropertyFailResponse => 0x52,
            EchonetService::ReadPropertyRequest => 0x62,
            EchonetService::ReadPropertyResponse => 0x72,
            EchonetService::PropertyNotification => 0x73,
            EchonetService::PropertyNotificationResponseRequired => 0x74,
            EchonetService::PropertyNotificationResponse => 0x7A,
        }
    }

    /// The service, if any, that the byte `c` stands for.
    pub open spec fn spec_from_code(c: u8) -> Option<EchonetService> {
        match c {
            0x52u8 => Some(EchonetService::ReadPropertyFailResponse),
            0x62u8 => Some(EchonetService::ReadPropertyRequest),
            0x72u8 => Some(EchonetService::ReadPropertyResponse),
            0x73u8 => Some(EchonetService::PropertyNotification),
            0x74u8 => Some(EchonetService::PropertyNotificationResponseRequired),
            0x7Au8 => Some(EchonetService::PropertyNotificationResponse),
            _ => None,
        }
    }

    pub fn code(self) -> (r: u8)
        ensures
            r == self.spec_code(),
    {
        match self {
            EchonetService::ReadPropertyFailResponse => 0x52,
            EchonetService::ReadPropertyRequest => 0x62,
            EchonetService::ReadPropertyResponse => 0x72,
            EchonetService::PropertyNotification => 0x73,
            EchonetService::PropertyNotificationResponseRequired => 0x74,
            EchonetService::PropertyNotificationResponse => 0x7A,
        }
    }

    pub fn from_code(c: u8) -> (r: Option<EchonetService>)
        ensures
            r == EchonetService::spec_from_code(c),
    {
        match c {
            0x52 => Some(EchonetService::ReadPropertyFailResponse),
            0x62 => Some(EchonetService::ReadPropertyRequest),
            0x72 => Some(EchonetService::ReadPropertyResponse),
            0x73 => Some(EchonetService::PropertyNotification),
            0x74 => Some(EchonetService::PropertyNotificationResponseRequired),
            0x7A => Some(EchonetService::PropertyNotificationResponse),
            _ => None,
        }
    }
}

/// Properties of the low-voltage smart electric energy meter object.
#[derive(Debug, PartialEq, Eq, Structural, Copy, Clone)]
pub enum EchonetSmartMeterProperty {
    Coefficient,
    NumberOfEffectiveDigitsCumulativeElectricEnergy,
    NormalDirectionCumulativeElectricEnergy,
    UnitForCumulativeElectricEnergy,
    NormalDirectionCumulativeElectricEnergyLog1,
    InstantaneousElectricPower,
    InstantaneousCurrent,
}

impl EchonetProperty for EchonetSmartMeterProperty {
    open spec fn code(self) -> u8 {
        match self {
            EchonetSmartMeterProperty::Coefficient => 0xD3,
            EchonetSmartMeterProperty::NumberOfEffectiveDigitsCumulativeElectricEnergy => 0xD7,
            EchonetSmartMeterProperty::NormalDirectionCumulativeElectricEnergy => 0xE0,
            EchonetSmartMeterProperty::UnitForCumulativeElectricEnergy => 0xE1,
            EchonetSmartMeterProperty::NormalDirectionCumulativeElectricEnergyLog1 => 0xE2,
            EchonetSmartMeterProperty::InstantaneousElectricPower => 0xE7,
            EchonetSmartMeterProperty::InstantaneousCurrent => 0xE8,
        }
    }

    open spec fn from_code(c: u8) -> Option<EchonetSmartMeterProperty> {
        match c {
            0xD3u8 => Some(EchonetSmartMeterProperty::Coefficient),
            0xD7u8 => Some(
                EchonetSmartMeterProperty::NumberOfEffectiveDigitsCumulativeElectricEnergy,
            ),
            0xE0u8 => Some(EchonetSmartMeterProperty::NormalDirectionCumulativeElectricEnergy),
            0xE1u8 => Some(EchonetSmartMeterProperty::UnitForCumulativeElectricEnergy),
            0xE2u8 => Some(EchonetSmartMeterProperty::NormalDirectionCumulativeElectricEnergyLog1),
            0xE7u8 => Some(EchonetSmartMeterProperty::InstantaneousElectricPower),
            0xE8u8 => Some(EchonetSmartMeterProperty::InstantaneousCurrent),
            _ => None,
        }
    }

    proof fn lemma_code_from_code(self) {
    }

    proof fn lemma_from_code_code(c: u8) {
    }

    fn to_u8(self) -> u8 {
        match self {
            EchonetSmartMeterProperty::Coefficient => 0xD3,
            EchonetSmartMeterProperty::NumberOfEffectiveDigitsCumulativeElectricEnergy => 0xD7,
            EchonetSmartMeterProperty::NormalDirectionCumulativeElectricEnergy => 0xE0,
            EchonetSmartMeterProperty::UnitForCumulativeElectricEnergy => 0xE1,
            EchonetSmartMeterProperty::NormalDirectionCumulativeElectricEnergyLog1 => 0xE2,
            EchonetSmartMeterProperty::InstantaneousElectricPower => 0xE7,
            EchonetSmartMeterProperty::InstantaneousCurrent => 0xE8,
        }
    }

    fn from_u8(c: u8) -> Option<EchonetSmartMeterProperty> {
        match c {
            0xD3 => Some(EchonetSmartMeterProperty::Coefficient),
            0xD7 => Some(
                EchonetSmartMeterProperty::NumberOfEffectiveDigitsCumulativeElectricEnergy,
            ),
            0xE0 => Some(EchonetSmartMeterProperty::NormalDirectionCumulativeElectricEnergy),
            0xE1 => Some(EchonetSmartMeterProperty::UnitForCumulativeElectricEnergy),
            0xE2 => Some(EchonetSmartMeterProperty::NormalDirectionCumulativeElectricEnergyLog1),
            0xE7 => Some(EchonetSmartMeterProperty::InstantaneousElectricPower),
            0xE8 => Some(EchonetSmartMeterProperty::InstantaneousCurrent),
            _ => None,
        }
    }
}

/// Properties shared by every ECHONET object class.
#[derive(Debug, PartialEq, Eq, Structural, Copy, Clone)]
pub enum EchonetSuperClassProperty {
    GetPropertyMap,
}

impl EchonetProperty for EchonetSuperClassProperty {
    open spec fn code(self) -> u8 {
        match self {
            EchonetSuperClassProperty::GetPropertyMap => 0x9F,
        }
    }

    open spec fn from_code(c: u8) -> Option<EchonetSuperClassProperty> {
        match c {
            0x9Fu8 => Some(EchonetSuperClassProperty::GetPropertyMap),
            _ => None,
        }
    }

    proof fn lemma_code_from_code(self) {
    }

    proof fn lemma_from_code_code(c: u8) {
    }

    fn to_u8(self) -> u8 {
        0x9F
    }

    fn from_u8(c: u8) -> Option<EchonetSuperClassProperty> {
        match c {
            0x9F => Some(EchonetSuperClassProperty::GetPropertyMap),
            _ => None,
        }
    }
}

} // verus!
